//! A database held in memory: the header, decoded when the database is opened,
//! and its pages, decoded on first use. Changes stay in memory until `flush`
//! writes them back into the bytes of the database.
//!
//! Rows are written back at the offsets they were read from; the page heap is never
//! repacked, so an edit that changes the size of a row corrupts its page.

use crate::codec::{holds_at, lemma_holds_split, lemma_write_at_holds, write_at, write_bytes_at, Codec};
use crate::pdb::offset_array::OffsetArrayItems;
use crate::pdb::page::{groups_present, spec_heap_accounted, spec_row_added, IndexPageContent, IndexPageHeader, Page, PageContent, PageError, PageHeader, RowSlot};
use crate::pdb::rows::{PlainRow, Row, Track};
use crate::pdb::{
    DatabaseType, Header, HeaderModel, PageIndex, PageType, PlainPageType, Table,
    PAGE_INDEX_LIMIT,
};
use crate::util::{RekordcrateError, TableIndex};
use vstd::prelude::*;
use vstd::std_specs::iter::IteratorSpec;

verus! {

/// A page of the database: not decoded yet, or decoded (and maybe changed).
#[derive(Debug, PartialEq, Clone)]
pub enum LazyPage {
    /// The page has not been decoded yet.
    NotLoaded,
    /// The decoded page.
    Loaded(Page),
}

/// Reference to a row stored in a page.
#[derive(Debug, Clone, Copy, PartialEq, Eq, Structural)]
pub struct RowRef {
    /// Index of the page that contains the row.
    pub page_index: PageIndex,
    /// Byte offset of the row inside the page heap.
    pub row_offset: u16,
}

/// The page index that ends a chain of pages.
pub const PAGE_CHAIN_END: u32 = 0x03FF_FFFF;

/// Page size of newly created databases.
pub const DEFAULT_PAGE_SIZE: u32 = 4096;

/// Heap bytes that a track row must take at least.
pub const MIN_TRACK_ALLOCATED_SIZE: u16 = 221;

/// The page at byte `page_index * page_size` of `s` decodes.
pub open spec fn spec_page_readable(s: Seq<u8>, page_index: PageIndex, page_size: u32, db: DatabaseType) -> bool {
    page_index.0 * page_size <= s.len() && Page::spec_readable(s, page_index.0 * page_size, page_size, db)
}

/// Decodes the page with index `page_index` from the bytes of a database.
pub fn read_page(data: &Vec<u8>, page_index: PageIndex, page_size: u32, db: DatabaseType) -> (r: Result<Page, RekordcrateError>)
    ensures
        r is Ok <==> spec_page_readable(data@, page_index, page_size, db),
        r matches Ok(p) ==> p.spec_read(data@, page_index.0 * page_size, page_size, db) && p.spec_writable(),
        r is Err ==> r == Err::<Page, RekordcrateError>(RekordcrateError::PageNotReadable(page_index)),
{
    let offset = page_index.offset(page_size);
    if offset > data.len() as u64 {
        return Err(RekordcrateError::PageNotReadable(page_index));
    }
    match Page::parse(data.as_slice(), offset as usize, page_size, db) {
        Some(page) => Ok(page),
        None => Err(RekordcrateError::PageNotReadable(page_index)),
    }
}

/// `lp` is a freshly made index page with index `index`, of type `t`, whose
/// chain ends with it.
pub open spec fn spec_fresh_index_page(lp: LazyPage, index: u32, t: PageType) -> bool {
    &&& lp matches LazyPage::Loaded(p)
    &&& p.header.page_index.0 == index
    &&& p.header.page_type == t
    &&& p.header.next_page.0 == PAGE_CHAIN_END
    &&& p.header.page_flags == crate::pdb::bitfields::PageFlags::spec_from_byte(0x64)
    &&& p.content matches PageContent::Index(c)
    &&& c.entries@.len() == 0
    &&& c.header.next_page.0 == PAGE_CHAIN_END
}

/// `lp` is a freshly made, empty data page with index `index`, of type `t`,
/// for pages of `page_size` bytes, whose chain ends with it.
pub open spec fn spec_fresh_data_page(lp: LazyPage, index: u32, t: PageType, page_size: u32) -> bool {
    &&& lp matches LazyPage::Loaded(p)
    &&& p.header.page_index.0 == index
    &&& p.header.page_type == t
    &&& p.header.next_page.0 == PAGE_CHAIN_END
    &&& p.header.page_flags == crate::pdb::bitfields::PageFlags::spec_from_byte(0x24)
    &&& p.header.free_size == page_size - 40
    &&& p.header.used_size == 0
    &&& p.header.packed_row_counts.spec_num_rows() == 0
    &&& p.header.packed_row_counts.spec_num_rows_valid() == 0
    &&& p.content matches PageContent::Data(d)
    &&& d.row_groups@.len() == 0
    &&& d.rows@ == Map::<u16, Row>::empty()
    &&& p.spec_writable()
}

/// An iterator over the pages of a table, following their `next_page` links.
///
/// Pages must be linked by increasing index: a page that does not come after
/// the previous one ends the iteration with `PageOrderViolation`.
#[derive(Debug, Clone, Copy, PartialEq, Eq, Structural)]
pub struct PageIterator {
    /// The page to visit next, if any.
    pub next_page: Option<PageIndex>,
    /// The last page of the table.
    pub last_page: PageIndex,
    /// The lowest page index that may still be visited.
    pub pages_offset: u64,
    /// How many pages from `pages_offset` on may still be visited.
    pub remaining: u64,
}

impl PageIterator {
    /// An iterator over the pages of `table` in a database of `num_pages` pages.
    pub open spec fn spec_new(table: Table, num_pages: int) -> PageIterator {
        PageIterator {
            next_page: Some(table.first_page),
            last_page: table.last_page,
            pages_offset: 1,
            remaining: num_pages as u64,
        }
    }

    /// An iterator over the pages of `table` in a database of `num_pages` pages.
    pub fn new(table: &Table, num_pages: usize) -> (r: PageIterator)
        ensures
            r == Self::spec_new(*table, num_pages as int),
    {
        PageIterator {
            next_page: Some(table.first_page),
            last_page: table.last_page,
            pages_offset: 1,
            remaining: num_pages as u64,
        }
    }

    /// Decodes the next page of the table (unless it was decoded before) and
    /// returns its index, or `None` after the last page.
    ///
    /// Fails with `PageOrderViolation` where the next page lies before the ones
    /// still to visit, with `PageNotPresent` where it lies beyond them (after
    /// which no page can be visited), and as `Database::ensure_loaded` does.
    pub fn next(&mut self, db: &mut Database) -> (r: Result<Option<PageIndex>, RekordcrateError>)
        requires
            old(db).wf(),
            old(self).pages_offset >= 1,
            old(self).pages_offset - 1 + old(self).remaining <= old(db).spec_pages().len(),
        ensures
            final(db).wf(),
            final(self).pages_offset >= 1,
            final(self).pages_offset - 1 + final(self).remaining <= final(db).spec_pages().len(),
            final(db).spec_header() == old(db).spec_header(),
            final(db).spec_data() == old(db).spec_data(),
            final(db).spec_db_type() == old(db).spec_db_type(),
            final(db).spec_pages().len() == old(db).spec_pages().len(),
            final(self).last_page == old(self).last_page,
            final(self).remaining <= old(self).remaining,
            forall|i: int|
                0 <= i < old(db).spec_pages().len() && old(db).spec_pages()[i] is Loaded
                    ==> #[trigger] final(db).spec_pages()[i] == old(db).spec_pages()[i],
            r is Err ==> final(db).spec_pages() == old(db).spec_pages(),
            old(self).next_page is None ==> r == Ok::<Option<PageIndex>, RekordcrateError>(None)
                && *final(self) == *old(self) && final(db).spec_pages() == old(db).spec_pages(),
            old(self).next_page matches Some(p) ==> {
                let slice_index = p.0 - old(self).pages_offset;
                if slice_index < 0 {
                    &&& r == Err::<Option<PageIndex>, RekordcrateError>(RekordcrateError::PageOrderViolation(p))
                    &&& *final(self) == *old(self)
                    &&& final(db).spec_pages() == old(db).spec_pages()
                } else if slice_index >= old(self).remaining {
                    &&& r == Err::<Option<PageIndex>, RekordcrateError>(RekordcrateError::PageNotPresent(p))
                    &&& final(self).remaining == 0
                    &&& final(self).next_page == old(self).next_page
                    &&& final(db).spec_pages() == old(db).spec_pages()
                } else {
                    &&& final(self).pages_offset == p.0 + 1
                    &&& final(self).remaining == old(self).remaining - slice_index - 1
                    &&& (r is Ok <==> (old(db).spec_page(p) is Some || spec_page_readable(
                        old(db).spec_data(),
                        p,
                        old(db).spec_header().page_size,
                        old(db).spec_db_type(),
                    )))
                    &&& r is Err ==> r == Err::<Option<PageIndex>, RekordcrateError>(RekordcrateError::PageNotReadable(p))
                        && final(self).next_page == old(self).next_page
                    &&& r is Ok ==> {
                        &&& r == Ok::<Option<PageIndex>, RekordcrateError>(Some(p))
                        &&& final(db).spec_page(p) matches Some(page)
                        &&& final(self).next_page == (if p == old(self).last_page {
                            None
                        } else {
                            Some(final(db).spec_page(p)->0.header.next_page)
                        })
                    }
                }
            },
    {
        let p = match self.next_page {
            None => {
                return Ok(None);
            },
            Some(p) => p,
        };
        if (p.0 as u64) < self.pages_offset {
            return Err(RekordcrateError::PageOrderViolation(p));
        }
        let slice_index = p.0 as u64 - self.pages_offset;
        if slice_index >= self.remaining {
            self.remaining = 0;
            return Err(RekordcrateError::PageNotPresent(p));
        }
        self.remaining = self.remaining - slice_index - 1;
        self.pages_offset = p.0 as u64 + 1;
        match db.ensure_loaded(p) {
            Ok(()) => {},
            Err(e) => {
                return Err(e);
            },
        }
        let next = match db.page(p) {
            Some(page) => page.header.next_page,
            None => {
                return Err(RekordcrateError::PageNotPresent(p));
            },
        };
        if p == self.last_page {
            self.next_page = None;
        } else {
            self.next_page = Some(next);
        }
        Ok(Some(p))
    }
}

/// The lists of `segs`, one after another.
pub open spec fn concat_refs(segs: Seq<Seq<RowRef>>) -> Seq<RowRef>
    decreases segs.len(),
{
    if segs.len() == 0 {
        Seq::empty()
    } else {
        concat_refs(segs.drop_last()) + segs.last()
    }
}

/// `states` are the bytes before and after writing each of the first `k` of
/// `pages`, page `i` at byte `base + i * page_size`, from `start` to `end`.
pub open spec fn spec_pages_chain(
    start: Seq<u8>,
    end: Seq<u8>,
    pages: Seq<LazyPage>,
    base: int,
    page_size: u32,
    k: nat,
    states: Seq<Seq<u8>>,
) -> bool {
    &&& states.len() == k + 1
    &&& states[0] == start
    &&& states[k as int] == end
    &&& forall|i: int|
        0 <= i < k ==> spec_lazy_written(
            pages[i],
            #[trigger] states[i],
            states[i + 1],
            base + i * page_size,
            page_size,
        )
}

/// `end` is `start` after writing the first `k` of `pages`, page `i` at byte
/// `base + i * page_size`; pages not decoded are not written.
pub open spec fn spec_pages_written(
    start: Seq<u8>,
    end: Seq<u8>,
    pages: Seq<LazyPage>,
    base: int,
    page_size: u32,
    k: nat,
) -> bool {
    exists|states: Seq<Seq<u8>>| spec_pages_chain(start, end, pages, base, page_size, k, states)
}

/// Along a chain of page writes that starts at or after `base`, bytes held
/// before `base` stay held, where every decoded page's row groups fit into a
/// page.
proof fn lemma_chain_keeps(
    states: Seq<Seq<u8>>,
    start: Seq<u8>,
    end: Seq<u8>,
    pages: Seq<LazyPage>,
    base: int,
    page_size: u32,
    k: nat,
    j: nat,
    r: int,
    c: Seq<u8>,
)
    requires
        spec_pages_chain(start, end, pages, base, page_size, k, states),
        j <= k,
        forall|i: int|
            0 <= i < k ==> (#[trigger] pages[i] matches LazyPage::Loaded(p) ==> p.spec_groups_fit(page_size)),
        holds_at(start, r, c),
        r + c.len() <= base,
    ensures
        holds_at(states[j as int], r, c),
    decreases j,
{
    if j > 0 {
        let i = j - 1;
        lemma_chain_keeps(states, start, end, pages, base, page_size, k, i as nat, r, c);
        let pos = base + i * page_size;
        assert(i * page_size >= 0) by (nonlinear_arith)
            requires
                i >= 0,
                page_size >= 0,
        ;
        assert(spec_lazy_written(pages[i], states[i], states[i + 1], pos, page_size));
        reveal(spec_lazy_written);
        match pages[i] {
            LazyPage::Loaded(p) => {
                p.lemma_written_keeps_before(states[i], states[i + 1], pos, page_size, r, c);
            },
            LazyPage::NotLoaded => {},
        }
    }
}

/// Writing pages from `base` on keeps the bytes held before `base`, where every
/// decoded page's row groups fit into a page.
proof fn lemma_pages_written_keeps(
    start: Seq<u8>,
    end: Seq<u8>,
    pages: Seq<LazyPage>,
    base: int,
    page_size: u32,
    k: nat,
    r: int,
    c: Seq<u8>,
)
    requires
        spec_pages_written(start, end, pages, base, page_size, k),
        forall|i: int|
            0 <= i < k ==> (#[trigger] pages[i] matches LazyPage::Loaded(p) ==> p.spec_groups_fit(page_size)),
        holds_at(start, r, c),
        r + c.len() <= base,
    ensures
        holds_at(end, r, c),
{
    let states = choose|states: Seq<Seq<u8>>| spec_pages_chain(start, end, pages, base, page_size, k, states);
    lemma_chain_keeps(states, start, end, pages, base, page_size, k, k, r, c);
}

/// Along a chain of page writes, the bytes never get shorter, and every
/// decoded page written so far is held at its place and reached by the bytes,
/// where every decoded page can be written so that it reads back there.
#[verifier::rlimit(40)]
proof fn lemma_chain_held(
    states: Seq<Seq<u8>>,
    start: Seq<u8>,
    end: Seq<u8>,
    pages: Seq<LazyPage>,
    base: int,
    page_size: u32,
    db: DatabaseType,
    k: nat,
    j: nat,
)
    requires
        spec_pages_chain(start, end, pages, base, page_size, k, states),
        j <= k,
        k <= pages.len(),
        0 <= base,
        forall|i: int|
            0 <= i < k ==> (#[trigger] pages[i] matches LazyPage::Loaded(p) ==> p.spec_page_ok(
                base + i * page_size,
                page_size,
                db,
            )),
    ensures
        states[j as int].len() >= start.len(),
        forall|m: int|
            0 <= m < j ==> (#[trigger] pages[m] matches LazyPage::Loaded(p) ==> p.spec_held(
                states[j as int],
                base + m * page_size,
                page_size,
            ) && states[j as int].len() >= p.spec_extent(base + m * page_size, page_size)),
    decreases j,
{
    if j > 0 {
        let i = j - 1;
        lemma_chain_held(states, start, end, pages, base, page_size, db, k, i as nat);
        let pos = base + i * page_size;
        let old_s = states[i];
        let new_s = states[i + 1];
        assert(0 <= i * page_size) by (nonlinear_arith)
            requires
                0 <= i,
                page_size >= 0,
        ;
        assert(spec_lazy_written(pages[i], old_s, new_s, pos, page_size));
        reveal(spec_lazy_written);
        match pages[i] {
            LazyPage::Loaded(p) => {
                p.lemma_written_len(old_s, new_s, pos, page_size, db);
                p.lemma_written_held(old_s, new_s, pos, page_size, db);
                assert forall|m: int|
                    0 <= m < j implies (#[trigger] pages[m] matches LazyPage::Loaded(q) ==> q.spec_held(
                        new_s,
                        base + m * page_size,
                        page_size,
                    ) && new_s.len() >= q.spec_extent(base + m * page_size, page_size)) by {
                    if m < i {
                        if let LazyPage::Loaded(q) = pages[m] {
                            let qm = base + m * page_size;
                            assert(0 <= m * page_size && (m + 1) * page_size <= i * page_size) by (nonlinear_arith)
                                requires
                                    0 <= m < i,
                                    page_size >= 0,
                            ;
                            assert((m + 1) * page_size == m * page_size + page_size) by (nonlinear_arith);
                            let e = q.spec_extent(qm, page_size);
                            q.lemma_written_len(states[m], states[m + 1], qm, page_size, db);
                            p.lemma_written_agree_outside(old_s, new_s, pos, page_size, db, qm, e);
                            q.lemma_held_agree(old_s, new_s, qm, page_size, db, e);
                        }
                    }
                }
            },
            LazyPage::NotLoaded => {},
        }
    }
}

/// After the header block and the pages were written, the bytes start with the
/// header, where it is well formed and every decoded page's row groups fit into
/// a page.
proof fn lemma_flushed_header(h: Header, db_type: DatabaseType, old_data: Seq<u8>, new_data: Seq<u8>, pages: Seq<LazyPage>)
    requires
        h@.spec_wf(db_type),
        forall|i: int|
            0 <= i < pages.len() ==> (#[trigger] pages[i] matches LazyPage::Loaded(p) ==> p.spec_groups_fit(h.page_size)),
        spec_pages_written(
            write_at(old_data, 0, spec_header_block(h)),
            new_data,
            pages,
            spec_header_block(h).len() as int,
            h.page_size,
            pages.len(),
        ),
    ensures
        HeaderModel::spec_parse(new_data, 0, db_type) == Some((h@, h@.spec_bytes().len() as int)),
{
    let hb = h@.spec_bytes();
    let block = spec_header_block(h);
    let after_head = write_at(old_data, 0, block);
    lemma_write_at_holds(old_data, 0, block);
    if hb.len() < h.page_size {
        lemma_holds_split(after_head, 0, hb, Seq::new((h.page_size - hb.len()) as nat, |i: int| 0u8));
    }
    assert(holds_at(after_head, 0, hb));
    lemma_pages_written_keeps(after_head, new_data, pages, block.len() as int, h.page_size, pages.len(), 0, hb);
    let rest = new_data.subrange(hb.len() as int, new_data.len() as int);
    assert(new_data =~= Seq::<u8>::empty() + hb + rest);
    crate::pdb::lemma_header_roundtrip(h@, db_type, Seq::<u8>::empty(), rest);
}

/// Every track row of a data page takes at least `MIN_TRACK_ALLOCATED_SIZE`
/// heap bytes once rounded up to four, and at most 65532.
pub open spec fn spec_track_rows_ok(data: crate::pdb::page::DataPageContent) -> bool {
    forall|k: u16| #[trigger]
        data.rows@.contains_key(k) ==> (data.rows@[k] matches Row::Plain(PlainRow::Track(t)) ==> t.spec_heap_bytes()
            <= 65532 && crate::pdb::page::round_up4(t.spec_heap_bytes()) >= MIN_TRACK_ALLOCATED_SIZE)
}

/// `e` is an error of a track row of a size that is not allowed.
pub open spec fn spec_track_error(e: RekordcrateError) -> bool {
    e == RekordcrateError::IntegrityError("track row too large") || e is TrackRowTooSmall
}

/// Checks the size of every track row of a data page: a track row must take at
/// least `MIN_TRACK_ALLOCATED_SIZE` heap bytes once rounded up to four, and at
/// most 65532.
fn check_track_rows(data: &crate::pdb::page::DataPageContent) -> (r: Result<(), RekordcrateError>)
    requires
        data.spec_rows_writable(),
    ensures
        r is Ok <==> spec_track_rows_ok(*data),
        r matches Err(e) ==> spec_track_error(e),
{
    proof {
        crate::pdb::page::lemma_offset_keys_hold();
    }
    let ghost v = vstd::std_specs::btree::spec_btree_map_iter(&data.rows).remaining();
    for (_, row) in iter: data.rows.iter()
        invariant
            data.spec_rows_writable(),
            crate::pdb::page::offset_keys_ordered(),
            iter.seq() == vstd::std_specs::btree::spec_btree_map_iter(&data.rows).remaining(),
            v == iter.seq(),
            forall|j: int|
                0 <= j < iter.index() ==> (*(#[trigger] v[j]).1 matches Row::Plain(PlainRow::Track(t))
                    ==> t.spec_heap_bytes() <= 65532 && crate::pdb::page::round_up4(t.spec_heap_bytes())
                    >= MIN_TRACK_ALLOCATED_SIZE),
    {
        proof {
            crate::pdb::page::lemma_iter_entry_in_map(&data.rows, iter.index());
        }
        let ghost idx = iter.index();
        assert(*row == *v[idx].1);
        if let Row::Plain(PlainRow::Track(track)) = row {
            match track.checked_heap_bytes() {
                Some(b) => {
                    if b > 65532 {
                        return Err(RekordcrateError::IntegrityError("track row too large"));
                    }
                    let allocated = crate::pdb::page::round_up_to_4(b);
                    if allocated < MIN_TRACK_ALLOCATED_SIZE {
                        return Err(
                            RekordcrateError::TrackRowTooSmall {
                                track_id: track.id.0,
                                allocated,
                                minimum: MIN_TRACK_ALLOCATED_SIZE,
                            },
                        );
                    }
                },
                None => {
                    return Err(RekordcrateError::IntegrityError("track row too large"));
                },
            }
        }
        assert(*v[idx].1 matches Row::Plain(PlainRow::Track(t)) ==> t.spec_heap_bytes() <= 65532
            && crate::pdb::page::round_up4(t.spec_heap_bytes()) >= MIN_TRACK_ALLOCATED_SIZE);
    }
    proof {
        assert forall|k: u16| #[trigger] data.rows@.contains_key(k) implies (data.rows@[k] matches Row::Plain(
            PlainRow::Track(t),
        ) ==> t.spec_heap_bytes() <= 65532 && crate::pdb::page::round_up4(t.spec_heap_bytes())
            >= MIN_TRACK_ALLOCATED_SIZE) by {
            assert(v.contains((&k, &data.rows@[k])));
            let j = choose|j: int| 0 <= j < v.len() && v[j] == (&k, &data.rows@[k]);
            assert(*v[j].1 == data.rows@[k]);
        }
    }
    Ok(())
}

/// The header block at the start of a database: the header, padded with zeros
/// to a full page.
pub open spec fn spec_header_block(h: Header) -> Seq<u8> {
    let b = h@.spec_bytes();
    if b.len() < h.page_size {
        b + Seq::new((h.page_size - b.len()) as nat, |i: int| 0u8)
    } else {
        b
    }
}

/// `new` is `old` after writing the page `lp` at `pos`; a page not decoded
/// writes nothing.
#[verifier::opaque]
pub open spec fn spec_lazy_written(lp: LazyPage, old: Seq<u8>, new: Seq<u8>, pos: int, page_size: u32) -> bool {
    match lp {
        LazyPage::NotLoaded => new == old,
        LazyPage::Loaded(p) => p.spec_written(old, new, pos, page_size),
    }
}

/// Writes a decoded page at `pos` of `data`; a page not decoded writes nothing.
fn write_lazy_page(lp: &LazyPage, data: &mut Vec<u8>, pos: usize, page_size: u32) -> (r: Result<(), RekordcrateError>)
    requires
        lp matches LazyPage::Loaded(p) ==> p.spec_writable(),
    ensures
        r is Ok ==> spec_lazy_written(*lp, old(data)@, final(data)@, pos as int, page_size),
        lp is NotLoaded ==> r is Ok && final(data)@ == old(data)@,
        lp matches LazyPage::Loaded(p) ==> (r is Ok <==> p.spec_write_ok(pos as int, page_size)),
        r matches Err(e) ==> e is Write,
{
    reveal(spec_lazy_written);
    match lp {
        LazyPage::Loaded(page) => match page.write(data, pos, page_size) {
            Ok(()) => Ok(()),
            Err(e) => Err(RekordcrateError::Write(e)),
        },
        LazyPage::NotLoaded => Ok(()),
    }
}

/// Every page `i` of `pages` has its place `base + i * page_size` within
/// memory, and every decoded one can be written there.
pub open spec fn spec_pages_write_ok(pages: Seq<LazyPage>, base: int, page_size: u32) -> bool {
    forall|i: int|
        0 <= i < pages.len() ==> base + i * page_size <= usize::MAX && (#[trigger] pages[i] matches LazyPage::Loaded(
            p,
        ) ==> p.spec_write_ok(base + i * page_size, page_size))
}

/// Writes the decoded pages into `data`, page `i` at byte `base + i * page_size`.
/// Fails where a page's place lies beyond memory or a decoded page cannot be
/// written at its place.
fn write_pages(pages: &Vec<LazyPage>, data: &mut Vec<u8>, base: usize, page_size: u32) -> (r: Result<(), RekordcrateError>)
    requires
        forall|i: int|
            0 <= i < pages@.len() ==> (#[trigger] pages@[i] matches LazyPage::Loaded(p) ==> p.spec_writable()),
    ensures
        r is Ok ==> spec_pages_written(old(data)@, final(data)@, pages@, base as int, page_size, pages@.len()),
        r is Ok <==> spec_pages_write_ok(pages@, base as int, page_size),
        r matches Err(e) ==> e is Write,
{
    let ghost start = data@;
    let ghost mut states: Seq<Seq<u8>> = seq![data@];
    let mut i: usize = 0;
    while i < pages.len()
        invariant
            i <= pages@.len(),
            forall|k: int|
                0 <= k < pages@.len() ==> (#[trigger] pages@[k] matches LazyPage::Loaded(p) ==> p.spec_writable()),
            spec_pages_chain(start, data@, pages@, base as int, page_size, i as nat, states),
            forall|k: int|
                0 <= k < i ==> base + k * page_size <= usize::MAX && (#[trigger] pages@[k] matches LazyPage::Loaded(
                    p,
                ) ==> p.spec_write_ok(base + k * page_size, page_size)),
        decreases pages@.len() - i,
    {
        assert((i as u128) * (page_size as u128) <= 0xFFFF_FFFF_FFFF_FFFFu128 * 0xFFFF_FFFFu128) by (nonlinear_arith)
            requires
                i <= 0xFFFF_FFFF_FFFF_FFFFu128,
                page_size <= 0xFFFF_FFFFu128,
        ;
        let pos = base as u128 + (i as u128) * (page_size as u128);
        if pos > usize::MAX as u128 {
            proof {
                assert(!(base + i * page_size <= usize::MAX && (pages@[i as int] matches LazyPage::Loaded(p)
                    ==> p.spec_write_ok(base + i * page_size, page_size))));
            }
            return Err(RekordcrateError::Write(PageError::PositionOverflow));
        }
        assert(pages@[i as int] matches LazyPage::Loaded(p) ==> p.spec_writable());
        match write_lazy_page(&pages[i], data, pos as usize, page_size) {
            Ok(()) => {},
            Err(e) => {
                proof {
                    assert(!(pages@[i as int] matches LazyPage::Loaded(p) ==> p.spec_write_ok(
                        base + i * page_size,
                        page_size,
                    )));
                }
                return Err(e);
            },
        }
        proof {
            let old_states = states;
            states = states.push(data@);
            assert forall|j: int| 0 <= j < i + 1 implies spec_lazy_written(
                pages@[j],
                #[trigger] states[j],
                states[j + 1],
                base + j * page_size,
                page_size,
            ) by {
                if j < i {
                    assert(states[j] == old_states[j] && states[j + 1] == old_states[j + 1]);
                }
            }
        }
        i = i + 1;
    }
    Ok(())
}

/// Storing a row of `row_size` heap bytes in the page `p` would overflow one of
/// its counters, or its counters disagree with its row groups and rows: a data
/// page with room for the row whose row count is at its limit, whose used size
/// would pass 65535, whose row groups are fewer than its row count needs,
/// which already has a row at its used size, or whose valid row count is at
/// its limit.
pub open spec fn spec_counters_broken(p: Page, row_size: u16) -> bool {
    let b = crate::pdb::page::round_up4(row_size as int);
    let n = p.header.packed_row_counts.spec_num_rows();
    &&& p.content matches PageContent::Data(d)
    &&& p.header.free_size >= b + 6
    &&& (n >= 8191 || p.header.used_size + b > 65535 || n / 16 > (d.row_groups@.len() as u16)
        || d.rows@.contains_key(p.header.used_size) || p.header.packed_row_counts.spec_num_rows_valid() >= 2047)
}

/// The page `p` points at `next`, and so does its index header where it is
/// an index page.
pub open spec fn spec_relinked_to(p: Option<Page>, next: PageIndex) -> bool {
    &&& p matches Some(pg)
    &&& pg.header.next_page == next
    &&& pg.content matches PageContent::Index(c) ==> c.header.next_page == next
}

/// `it` for the table with `added` as its last page, with `d` more pages
/// left.
pub open spec fn spec_shifted(it: PageIterator, added: PageIndex, d: int) -> PageIterator {
    PageIterator {
        next_page: it.next_page,
        last_page: added,
        pages_offset: it.pages_offset,
        remaining: (it.remaining + d) as u64,
    }
}

/// `p` is a decoded data page of type `t`.
pub open spec fn spec_data_page_of(p: Option<Page>, t: PageType) -> bool {
    &&& p matches Some(pg)
    &&& pg.header.page_type == t
    &&& pg.content is Data
}

/// `p` is a decoded page whose counters are broken for a row of `size` bytes.
pub open spec fn spec_broken_page(p: Option<Page>, size: u16) -> bool {
    p matches Some(pg) && spec_counters_broken(pg, size)
}

/// `p` is a decoded page without room for a row of `size` bytes.
pub open spec fn spec_page_without_room(p: Option<Page>, size: u16) -> bool {
    p matches Some(pg) && !pg.spec_fits(size)
}

/// The page `p` with its `next_page` (and, for an index page, the copy in its
/// index header) pointing at `next`.
pub open spec fn spec_relinked(p: Page, next: PageIndex) -> Page {
    Page {
        header: PageHeader { next_page: next, ..p.header },
        content: match p.content {
            PageContent::Index(c) => PageContent::Index(
                IndexPageContent { header: IndexPageHeader { next_page: next, ..c.header }, ..c },
            ),
            PageContent::Data(d) => PageContent::Data(d),
        },
    }
}

/// The rows of the page `a`, where it is a decoded data page, are in `b`, a
/// decoded data page too.
pub open spec fn spec_page_rows_kept(a: LazyPage, b: LazyPage) -> bool {
    match a {
        LazyPage::Loaded(pa) => match pa.content {
            PageContent::Data(da) => match b {
                LazyPage::Loaded(pb) => match pb.content {
                    PageContent::Data(db) => forall|k: u16| #[trigger]
                        da.rows@.contains_key(k) ==> db.rows@.contains_key(k) && db.rows@[k] == da.rows@[k],
                    PageContent::Index(_) => false,
                },
                LazyPage::NotLoaded => false,
            },
            PageContent::Index(_) => true,
        },
        LazyPage::NotLoaded => true,
    }
}

/// A page keeps its own rows.
proof fn lemma_page_rows_kept_refl(a: LazyPage)
    ensures
        spec_page_rows_kept(a, a),
{
    if let LazyPage::Loaded(pa) = a {
        if let PageContent::Data(da) = pa.content {
            assert forall|k: u16| #[trigger] da.rows@.contains_key(k) implies da.rows@.contains_key(k)
                && da.rows@[k] == da.rows@[k] by {
            }
        }
    }
}

/// A PDB database held in memory.
#[derive(Debug)]
pub struct Database {
    data: Vec<u8>,
    db_type: DatabaseType,
    header: Header,
    pages: Vec<LazyPage>,
}

impl Database {
    /// Every decoded page can be written back.
    pub closed spec fn wf(&self) -> bool {
        forall|i: int|
            0 <= i < self.pages@.len() ==> (#[trigger] self.pages@[i] matches LazyPage::Loaded(p)
                ==> p.spec_writable())
    }

    /// The bytes of the database as last read or flushed.
    pub closed spec fn spec_data(&self) -> Seq<u8> {
        self.data@
    }

    /// The kind of the database.
    pub closed spec fn spec_db_type(&self) -> DatabaseType {
        self.db_type
    }

    /// The header of the database.
    pub closed spec fn spec_header(&self) -> Header {
        self.header
    }

    /// The pages of the database: page `i + 1` at place `i`.
    pub closed spec fn spec_pages(&self) -> Seq<LazyPage> {
        self.pages@
    }

    /// Whether `index` names a page of the database (page indices start at one).
    pub open spec fn spec_has_page(&self, index: PageIndex) -> bool {
        1 <= index.0 <= self.spec_pages().len()
    }

    /// `b` is what flushing the database writes, where `pages` are its pages
    /// as decoded by then (those decoded before unchanged): its bytes with the
    /// header block written at the start and each decoded page of `pages`
    /// written after it, page `i + 1` at `i` pages past the header block.
    #[verifier::opaque]
    pub open spec fn spec_flushed(&self, b: Seq<u8>, pages: Seq<LazyPage>) -> bool {
        &&& pages.len() == self.spec_pages().len()
        &&& forall|i: int|
            0 <= i < pages.len() && self.spec_pages()[i] is Loaded ==> #[trigger] pages[i]
                == self.spec_pages()[i]
        &&& spec_pages_written(
            write_at(self.spec_data(), 0, spec_header_block(self.spec_header())),
            b,
            pages,
            spec_header_block(self.spec_header()).len() as int,
            self.spec_header().page_size,
            pages.len(),
        )
    }

    /// `b` is what flushing the database writes, with its pages as decoded by
    /// then (see `spec_flushed`).
    #[verifier::opaque]
    pub open spec fn spec_closed(&self, b: Seq<u8>) -> bool {
        exists|pages: Seq<LazyPage>| #[trigger] self.spec_flushed(b, pages)
    }

    /// What a flush writes reads back: in the bytes `b` that a flush leaves,
    /// with `pages` as decoded by then, every decoded page reads back from its
    /// place, page `i + 1` at `i + 1` pages from the start, where the header
    /// fits into a page and every decoded page can be written so that it reads
    /// back there.
    pub proof fn lemma_flushed_pages_read(&self, b: Seq<u8>, pages: Seq<LazyPage>)
        requires
            self.spec_flushed(b, pages),
            self.spec_header()@.spec_bytes().len() <= self.spec_header().page_size,
            forall|i: int|
                0 <= i < pages.len() ==> (#[trigger] pages[i] matches LazyPage::Loaded(p) ==> p.spec_page_ok(
                    (i + 1) * self.spec_header().page_size,
                    self.spec_header().page_size,
                    self.spec_db_type(),
                )),
        ensures
            forall|i: int|
                0 <= i < pages.len() ==> (#[trigger] pages[i] matches LazyPage::Loaded(p) ==> {
                    let ps = self.spec_header().page_size;
                    &&& p.spec_read_back(b, (i + 1) * ps, ps, self.spec_db_type())
                    &&& Page::spec_readable(b, (i + 1) * ps, ps, self.spec_db_type())
                }),
    {
        reveal(Database::spec_flushed);
        let h = self.spec_header();
        let ps = h.page_size;
        let db = self.spec_db_type();
        let block = spec_header_block(h);
        let start = write_at(self.spec_data(), 0, block);
        let k = pages.len();
        assert(block.len() == ps);
        let base = ps as int;
        assert forall|i: int| 0 <= i < k implies (#[trigger] pages[i] matches LazyPage::Loaded(p) ==> p.spec_page_ok(
            base + i * ps,
            ps,
            db,
        )) by {
            assert((i + 1) * ps == ps + i * ps) by (nonlinear_arith);
        }
        let states = choose|states: Seq<Seq<u8>>| spec_pages_chain(start, b, pages, base, ps, k, states);
        lemma_chain_held(states, start, b, pages, base, ps, db, k, k);
        assert forall|i: int| 0 <= i < k implies (#[trigger] pages[i] matches LazyPage::Loaded(p) ==> {
            &&& p.spec_read_back(b, (i + 1) * ps, ps, db)
            &&& Page::spec_readable(b, (i + 1) * ps, ps, db)
        }) by {
            if let LazyPage::Loaded(p) = pages[i] {
                assert((i + 1) * ps == ps + i * ps && i * ps >= 0) by (nonlinear_arith)
                    requires
                        i >= 0,
                ;
                p.lemma_held_read(b, base + i * ps, ps, db);
            }
        }
    }

    /// A row that `add_row` stored stays readable once the database is
    /// written: where the page it went into (its last or empty candidate page
    /// as decoded, of the row's type, or a fresh page) could be written so
    /// that it reads back and had its heap accounted as `allocate_row` keeps
    /// it, and the row is a known row that can be written where it went, the
    /// page that holds it after `add_row` can be written so that it reads back
    /// and has its heap accounted too; where its row groups fit into a page.
    /// A flush then writes it so that it reads back (see
    /// `lemma_flushed_pages_read`).
    pub proof fn lemma_added_row_page_ok(db: Database, fin: Database, row: Row, j: int, rr: RowRef)
        requires
            Self::spec_add_row_outcome(db, fin, row, j, Ok::<RowRef, RekordcrateError>(rr)),
            rr.page_index != db.spec_header().next_unused_page || db.spec_pages().len() + 1
                == db.spec_header().next_unused_page.0,
            row.spec_page_type() matches Some(t) && t.spec_wf(db.spec_db_type()),
            row.spec_heap_bytes() <= 65528,
            row.spec_wf(),
            row.spec_offsets_match(),
            row.spec_laid_out(),
            ({
                let q = rr.page_index.0 * db.spec_header().page_size + 40 + rr.row_offset;
                row.spec_within(q, q, q + row.spec_heap_bytes())
            }),
            forall|p0: Page|
                #[trigger] db.spec_decoded(rr.page_index, p0) ==> p0.header.page_type == row.spec_page_type()->0
                    && p0.spec_page_ok(
                    rr.page_index.0 * db.spec_header().page_size,
                    db.spec_header().page_size,
                    db.spec_db_type(),
                ) && spec_heap_accounted(p0, db.spec_header().page_size),
            fin.spec_page(rr.page_index) matches Some(p1) && p1.content is Data && 40 + 36
                * p1.content->Data_0.row_groups@.len() <= db.spec_header().page_size,
        ensures
            fin.spec_page(rr.page_index) matches Some(p1) && p1.spec_page_ok(
                rr.page_index.0 * db.spec_header().page_size,
                db.spec_header().page_size,
                db.spec_db_type(),
            ) && spec_heap_accounted(p1, db.spec_header().page_size),
    {
        let ps = db.spec_header().page_size;
        let pos = rr.page_index.0 * ps;
        let dbt = db.spec_db_type();
        let t = row.spec_page_type()->0;
        let size = row.spec_heap_bytes() as u16;
        let next = db.spec_header().next_unused_page;
        let p1 = fin.spec_page(rr.page_index)->0;
        let p0 = choose|p0: Page|
            (db.spec_decoded(rr.page_index, p0) || (rr.page_index == next && spec_fresh_data_page(
                LazyPage::Loaded(p0),
                next.0,
                t,
                ps,
            ))) && rr.row_offset == p0.header.used_size && fin.spec_page(rr.page_index) is Some
                && spec_row_added(p0, size, row, fin.spec_page(rr.page_index)->0);
        if !db.spec_decoded(rr.page_index, p0) {
            let d = p0.content->Data_0;
            assert(!p0.header.page_flags.is_index_page) by {
                assert(0x24u8 & 64u8 == 0u8) by (bit_vector);
            }
            assert(d.rows@.dom() =~= groups_present(d.row_groups@).to_set());
            assert(p0.spec_page_ok(pos, ps, dbt));
        }
        crate::pdb::page::lemma_row_added_page_ok(p0, size, row, p1, pos, ps, dbt);
    }

    /// A row that `add_row` stored reads back once the database is flushed:
    /// where the page it went into met the conditions of
    /// `lemma_added_row_page_ok`, the header fits into a page, and every other
    /// page decoded when a flush of `fin` wrote `b` could be written so that it
    /// reads back, the page that holds the row reads back from `b` at its
    /// place, with the row at its offset, and the row reads back from there as
    /// a row of its type.
    pub proof fn lemma_added_row_flushed(
        db: Database,
        fin: Database,
        row: Row,
        j: int,
        rr: RowRef,
        b: Seq<u8>,
        pages: Seq<LazyPage>,
    )
        requires
            Self::spec_add_row_outcome(db, fin, row, j, Ok::<RowRef, RekordcrateError>(rr)),
            fin.spec_db_type() == db.spec_db_type(),
            rr.page_index != db.spec_header().next_unused_page || db.spec_pages().len() + 1
                == db.spec_header().next_unused_page.0,
            row.spec_page_type() matches Some(t) && t.spec_wf(db.spec_db_type()),
            row.spec_heap_bytes() <= 65528,
            row.spec_wf(),
            row.spec_offsets_match(),
            row.spec_laid_out(),
            ({
                let q = rr.page_index.0 * db.spec_header().page_size + 40 + rr.row_offset;
                row.spec_within(q, q, q + row.spec_heap_bytes())
            }),
            forall|p0: Page|
                #[trigger] db.spec_decoded(rr.page_index, p0) ==> p0.header.page_type == row.spec_page_type()->0
                    && p0.spec_page_ok(
                    rr.page_index.0 * db.spec_header().page_size,
                    db.spec_header().page_size,
                    db.spec_db_type(),
                ) && spec_heap_accounted(p0, db.spec_header().page_size),
            fin.spec_page(rr.page_index) matches Some(p1) && p1.content is Data && 40 + 36
                * p1.content->Data_0.row_groups@.len() <= db.spec_header().page_size,
            fin.spec_flushed(b, pages),
            fin.spec_header()@.spec_bytes().len() <= fin.spec_header().page_size,
            forall|i: int|
                0 <= i < pages.len() && i != rr.page_index.0 - 1 ==> (#[trigger] pages[i] matches LazyPage::Loaded(p)
                    ==> p.spec_page_ok(
                    (i + 1) * fin.spec_header().page_size,
                    fin.spec_header().page_size,
                    fin.spec_db_type(),
                )),
        ensures
            fin.spec_page(rr.page_index) matches Some(p1) && p1.spec_read_back(
                b,
                rr.page_index.0 * fin.spec_header().page_size,
                fin.spec_header().page_size,
                fin.spec_db_type(),
            ) && (p1.content matches PageContent::Data(d) && d.rows@.contains_key(rr.row_offset)
                && d.rows@[rr.row_offset] == row),
            row.spec_read(
                b,
                rr.page_index.0 * fin.spec_header().page_size + 40 + rr.row_offset,
                row.spec_page_type()->0,
            ),
    {
        let ps = fin.spec_header().page_size;
        let k = rr.page_index.0 - 1;
        Self::lemma_added_row_page_ok(db, fin, row, j, rr);
        let p1 = fin.spec_page(rr.page_index)->0;
        reveal(Database::spec_flushed);
        assert(pages[k] == LazyPage::Loaded(p1));
        assert(rr.page_index.0 * ps == (k + 1) * ps);
        fin.lemma_flushed_pages_read(b, pages);
        assert(p1.spec_read_back(b, (k + 1) * ps, ps, fin.spec_db_type()));
        let d = p1.content->Data_0;
        assert(d.rows@.contains_key(rr.row_offset));
    }

    /// The row groups of every decoded data page fit into a page.
    pub open spec fn spec_pages_fit(&self) -> bool {
        forall|i: int|
            0 <= i < self.spec_pages().len() ==> (#[trigger] self.spec_pages()[i] matches LazyPage::Loaded(p)
                ==> p.spec_groups_fit(self.spec_header().page_size))
    }

    /// The decoded page with index `index`, where it was decoded.
    pub open spec fn spec_page(&self, index: PageIndex) -> Option<Page> {
        if self.spec_has_page(index) {
            match self.spec_pages()[index.0 - 1] {
                LazyPage::Loaded(p) => Some(p),
                LazyPage::NotLoaded => None,
            }
        } else {
            None
        }
    }

    /// Opens the database held in `data`: decodes its header, and leaves its
    /// `next_unused_page - 1` pages to be decoded on first use.
    pub fn open(data: Vec<u8>, db_type: DatabaseType) -> (r: Result<Database, RekordcrateError>)
        ensures
            r is Ok <==> HeaderModel::spec_parse(data@, 0, db_type) is Some,
            r matches Ok(db) ==> {
                &&& db.wf()
                &&& db.spec_data() == data@
                &&& db.spec_db_type() == db_type
                &&& HeaderModel::spec_parse(data@, 0, db_type) matches Some((h, _)) && db.spec_header()@
                    == h
                &&& db.spec_pages().len() == (if db.spec_header().next_unused_page.0 > 0 {
                    db.spec_header().next_unused_page.0 - 1
                } else {
                    0
                })
                &&& forall|i: int| 0 <= i < db.spec_pages().len() ==> #[trigger] db.spec_pages()[i] == LazyPage::NotLoaded
            },
            r is Err ==> r == Err::<Database, RekordcrateError>(RekordcrateError::HeaderNotReadable),
    {
        let header = match Header::parse(data.as_slice(), 0, db_type) {
            Some((h, _)) => h,
            None => {
                return Err(RekordcrateError::HeaderNotReadable);
            },
        };
        let n = if header.next_unused_page.0 > 0 {
            header.next_unused_page.0 - 1
        } else {
            0
        };
        let mut pages: Vec<LazyPage> = Vec::new();
        let mut i: u32 = 0;
        while i < n
            invariant
                i <= n,
                pages@.len() == i,
                forall|k: int| 0 <= k < i ==> #[trigger] pages@[k] == LazyPage::NotLoaded,
            decreases n - i,
        {
            pages.push(LazyPage::NotLoaded);
            i = i + 1;
        }
        Ok(Database { data, db_type, header, pages })
    }

    /// Opens the database held in `data` without writing back; the same as
    /// `open`, as changes stay in memory until flushed.
    pub fn open_non_persistent(data: Vec<u8>, db_type: DatabaseType) -> (r: Result<Database, RekordcrateError>)
        ensures
            r is Ok <==> HeaderModel::spec_parse(data@, 0, db_type) is Some,
            r matches Ok(db) ==> {
                &&& db.wf()
                &&& db.spec_data() == data@
                &&& db.spec_db_type() == db_type
                &&& HeaderModel::spec_parse(data@, 0, db_type) matches Some((h, _)) && db.spec_header()@
                    == h
            },
            r is Err ==> r == Err::<Database, RekordcrateError>(RekordcrateError::HeaderNotReadable),
    {
        Self::open(data, db_type)
    }

    /// The header of the database.
    pub fn get_header(&self) -> (r: &Header)
        ensures
            *r == self.spec_header(),
    {
        &self.header
    }

    /// The header of the database, for changing it.
    pub fn get_header_mut(&mut self) -> (r: &mut Header)
        ensures
            *r == old(self).spec_header(),
            final(self).spec_header() == *final(r),
            final(self).spec_pages() == old(self).spec_pages(),
            final(self).spec_data() == old(self).spec_data(),
            final(self).spec_db_type() == old(self).spec_db_type(),
            old(self).wf() ==> final(self).wf(),
    {
        &mut self.header
    }

    /// The pages of the database, page `i + 1` at place `i`, decoded or not.
    pub fn pages(&self) -> (r: &Vec<LazyPage>)
        ensures
            r@ == self.spec_pages(),
    {
        &self.pages
    }

    /// The kind of the database.
    pub fn db_type(&self) -> (r: DatabaseType)
        ensures
            r == self.spec_db_type(),
    {
        self.db_type
    }

    /// The bytes of the database as last read or flushed.
    pub fn data(&self) -> (r: &Vec<u8>)
        ensures
            r@ == self.spec_data(),
    {
        &self.data
    }

    /// The bytes of the database as last read or flushed.
    pub fn into_data(self) -> (r: Vec<u8>)
        ensures
            r@ == self.spec_data(),
    {
        self.data
    }

    /// The decoded page with index `index`, where it was decoded.
    pub fn page(&self, index: PageIndex) -> (r: Option<&Page>)
        ensures
            r matches Some(p) ==> self.spec_page(index) == Some(*p),
            r is None ==> self.spec_page(index) is None,
    {
        if index.0 == 0 || index.0 as usize > self.pages.len() {
            return None;
        }
        match &self.pages[index.0 as usize - 1] {
            LazyPage::Loaded(p) => Some(p),
            LazyPage::NotLoaded => None,
        }
    }

    /// Decodes the page with index `index` unless it was decoded before.
    /// Fails with `PageNotPresent` where no such page exists and with
    /// `PageNotReadable` where its bytes do not decode.
    pub fn ensure_loaded(&mut self, index: PageIndex) -> (r: Result<(), RekordcrateError>)
        requires
            old(self).wf(),
        ensures
            final(self).wf(),
            final(self).spec_header() == old(self).spec_header(),
            final(self).spec_data() == old(self).spec_data(),
            final(self).spec_db_type() == old(self).spec_db_type(),
            final(self).spec_pages().len() == old(self).spec_pages().len(),
            forall|i: int|
                0 <= i < old(self).spec_pages().len() && (old(self).spec_pages()[i] is Loaded || i
                    != index.0 - 1) ==> #[trigger] final(self).spec_pages()[i] == old(self).spec_pages()[i],
            !old(self).spec_has_page(index) ==> r == Err::<(), RekordcrateError>(
                RekordcrateError::PageNotPresent(index),
            ) && final(self).spec_pages() == old(self).spec_pages(),
            old(self).spec_page(index) is Some ==> r is Ok && final(self).spec_pages()
                == old(self).spec_pages(),
            old(self).spec_has_page(index) && old(self).spec_page(index) is None ==> {
                if spec_page_readable(
                    old(self).spec_data(),
                    index,
                    old(self).spec_header().page_size,
                    old(self).spec_db_type(),
                ) {
                    &&& r is Ok
                    &&& final(self).spec_page(index) matches Some(p) && p.spec_read(
                        old(self).spec_data(),
                        index.0 * old(self).spec_header().page_size,
                        old(self).spec_header().page_size,
                        old(self).spec_db_type(),
                    )
                    &&& forall|i: int|
                        0 <= i < old(self).spec_pages().len() && i != index.0 - 1
                            ==> #[trigger] final(self).spec_pages()[i] == old(self).spec_pages()[i]
                } else {
                    &&& r == Err::<(), RekordcrateError>(RekordcrateError::PageNotReadable(index))
                    &&& final(self).spec_pages() == old(self).spec_pages()
                }
            },
            old(self).spec_rows_kept_in(*final(self)),
    {
        if index.0 == 0 || index.0 as usize > self.pages.len() {
            proof {
                Self::lemma_loaded_kept(*old(self), *self);
            }
            return Err(RekordcrateError::PageNotPresent(index));
        }
        let i = index.0 as usize - 1;
        if let LazyPage::Loaded(_) = &self.pages[i] {
            proof {
                Self::lemma_loaded_kept(*old(self), *self);
            }
            return Ok(());
        }
        let page = match read_page(&self.data, index, self.header.page_size, self.db_type) {
            Ok(p) => p,
            Err(e) => {
                proof {
                    Self::lemma_loaded_kept(*old(self), *self);
                }
                return Err(e);
            },
        };
        self.pages.set(i, LazyPage::Loaded(page));
        proof {
            Self::lemma_loaded_kept(*old(self), *self);
        }
        Ok(())
    }

    /// Decodes the page with index `index` unless it was decoded before, and
    /// returns it for reading or changing. Fails as `ensure_loaded` does.
    ///
    /// The database stays well formed where the page can still be written
    /// back once the caller is done with it.
    pub fn load_page(&mut self, index: PageIndex) -> (r: Result<&mut Page, RekordcrateError>)
        requires
            old(self).wf(),
        ensures
            final(self).spec_header() == old(self).spec_header(),
            final(self).spec_data() == old(self).spec_data(),
            final(self).spec_db_type() == old(self).spec_db_type(),
            final(self).spec_pages().len() == old(self).spec_pages().len(),
            !old(self).spec_has_page(index) ==> r is Err && r->Err_0 == RekordcrateError::PageNotPresent(index),
            old(self).spec_page(index) is Some ==> r is Ok,
            old(self).spec_has_page(index) && old(self).spec_page(index) is None ==> {
                &&& r is Ok <==> spec_page_readable(
                    old(self).spec_data(),
                    index,
                    old(self).spec_header().page_size,
                    old(self).spec_db_type(),
                )
                &&& r is Err ==> r->Err_0 == RekordcrateError::PageNotReadable(index)
            },
            r is Err ==> final(self).wf() && final(self).spec_pages() == old(self).spec_pages(),
            r matches Ok(p) ==> {
                &&& old(self).spec_page(index) matches Some(q) ==> *p == q
                &&& old(self).spec_page(index) is None ==> p.spec_read(
                    old(self).spec_data(),
                    index.0 * old(self).spec_header().page_size,
                    old(self).spec_header().page_size,
                    old(self).spec_db_type(),
                )
                &&& p.spec_writable()
            },
            r is Ok ==> final(self).spec_pages() == old(self).spec_pages().update(
                index.0 - 1,
                LazyPage::Loaded(*final(r->Ok_0)),
            ),
            r is Ok && final(r->Ok_0).spec_writable() ==> final(self).wf(),
    {
        match self.ensure_loaded(index) {
            Ok(()) => {},
            Err(e) => {
                return Err(e);
            },
        }
        let i = index.0 as usize - 1;
        match &mut self.pages[i] {
            LazyPage::Loaded(p) => Ok(p),
            LazyPage::NotLoaded => Err(RekordcrateError::PageNotPresent(index)),
        }
    }

    /// Creates a new empty database of kind `db_type` with one table per page
    /// type: each table gets an index page followed by an empty data page, and
    /// both end the table's chain. Fails where the page indices would reach
    /// the page index limit.
    pub fn create(db_type: DatabaseType, table_page_types: &[PageType]) -> (r: Result<Database, RekordcrateError>)
        ensures
            r is Ok <==> 2 * table_page_types@.len() + 1 < PAGE_INDEX_LIMIT,
            r is Err ==> r == Err::<Database, RekordcrateError>(
                RekordcrateError::Pdb(crate::pdb::PdbError::InvalidPageIndex(PAGE_INDEX_LIMIT)),
            ),
            r matches Ok(db) ==> {
                let n = table_page_types@.len();
                let h = db.spec_header();
                &&& db.wf()
                &&& db.spec_db_type() == db_type
                &&& db.spec_data() == Seq::<u8>::empty()
                &&& h.page_size == DEFAULT_PAGE_SIZE
                &&& h.num_tables == n
                &&& h.next_unused_page.0 == 2 * n + 1
                &&& h.unknown == 5
                &&& h.sequence == 1
                &&& h.tables@.len() == n
                &&& db.spec_pages().len() == 2 * n
                &&& forall|i: int| 0 <= i < n ==> #[trigger] h.tables@[i] == (Table {
                    page_type: table_page_types@[i],
                    empty_candidate: (2 * i + 2) as u32,
                    first_page: PageIndex((2 * i + 1) as u32),
                    last_page: PageIndex((2 * i + 1) as u32),
                })
                &&& forall|i: int| 0 <= i < n ==> spec_fresh_index_page(
                    #[trigger] db.spec_pages()[2 * i],
                    (2 * i + 1) as u32,
                    table_page_types@[i],
                )
                &&& forall|i: int| 0 <= i < n ==> spec_fresh_data_page(
                    #[trigger] db.spec_pages()[2 * i + 1],
                    (2 * i + 2) as u32,
                    table_page_types@[i],
                    DEFAULT_PAGE_SIZE,
                )
            },
    {
        let n = table_page_types.len();
        let mut pages: Vec<LazyPage> = Vec::new();
        let mut tables: Vec<Table> = Vec::new();
        let mut next_page: u32 = 1;
        let mut i: usize = 0;
        while i < n
            invariant
                i <= n,
                n == table_page_types@.len(),
                next_page == 2 * i + 1,
                next_page < PAGE_INDEX_LIMIT,
                tables@.len() == i,
                pages@.len() == 2 * i,
                forall|k: int| 0 <= k < i ==> #[trigger] tables@[k] == (Table {
                    page_type: table_page_types@[k],
                    empty_candidate: (2 * k + 2) as u32,
                    first_page: PageIndex((2 * k + 1) as u32),
                    last_page: PageIndex((2 * k + 1) as u32),
                }),
                forall|k: int| 0 <= k < i ==> spec_fresh_index_page(#[trigger] pages@[2 * k], (2 * k + 1) as u32, table_page_types@[k]),
                forall|k: int| 0 <= k < i ==> spec_fresh_data_page(#[trigger] pages@[2 * k + 1], (2 * k + 2) as u32, table_page_types@[k], DEFAULT_PAGE_SIZE),
                forall|k: int| 0 <= k < pages@.len() ==> (#[trigger] pages@[k] matches LazyPage::Loaded(p) ==> p.spec_writable()),
            decreases n - i,
        {
            let page_type = table_page_types[i];
            let index_page_index = PageIndex(next_page);
            if next_page + 1 >= PAGE_INDEX_LIMIT {
                return Err(RekordcrateError::Pdb(crate::pdb::PdbError::InvalidPageIndex(PAGE_INDEX_LIMIT)));
            }
            let data_page_index = PageIndex(next_page + 1);
            if next_page + 2 >= PAGE_INDEX_LIMIT {
                return Err(RekordcrateError::Pdb(crate::pdb::PdbError::InvalidPageIndex(PAGE_INDEX_LIMIT)));
            }
            let index_page = Page::new_index(index_page_index, page_type, PageIndex(PAGE_CHAIN_END));
            let data_page = Page::new_data(DEFAULT_PAGE_SIZE, data_page_index, page_type, PageIndex(PAGE_CHAIN_END));
            tables.push(Table {
                page_type,
                empty_candidate: data_page_index.0,
                first_page: index_page_index,
                last_page: index_page_index,
            });
            pages.push(LazyPage::Loaded(index_page));
            pages.push(LazyPage::Loaded(data_page));
            next_page = next_page + 2;
            i = i + 1;
        }
        let header = Header {
            page_size: DEFAULT_PAGE_SIZE,
            num_tables: n as u32,
            next_unused_page: PageIndex(next_page),
            unknown: 5,
            sequence: 1,
            tables,
        };
        Ok(Database { data: Vec::new(), db_type, header, pages })
    }

    /// Allocates a new empty data page of type `page_type` at the next unused
    /// page index, and returns that index. Fails, changing nothing, with the
    /// index after it where that is no valid page index, or where the page size
    /// leaves no heap or a heap larger than 65535 bytes.
    fn alloc_data_page(&mut self, page_type: PageType) -> (r: Result<PageIndex, RekordcrateError>)
        requires
            old(self).wf(),
        ensures
            final(self).wf(),
            final(self).spec_data() == old(self).spec_data(),
            final(self).spec_db_type() == old(self).spec_db_type(),
            final(self).spec_header().tables == old(self).spec_header().tables,
            final(self).spec_header().page_size == old(self).spec_header().page_size,
            final(self).spec_header().num_tables == old(self).spec_header().num_tables,
            final(self).spec_header().unknown == old(self).spec_header().unknown,
            final(self).spec_header().sequence == old(self).spec_header().sequence,
            r matches Ok(index) ==> {
                &&& index == old(self).spec_header().next_unused_page
                &&& final(self).spec_header().next_unused_page.0 == index.0 + 1
                &&& final(self).spec_pages() == old(self).spec_pages().push(final(self).spec_pages().last())
                &&& spec_fresh_data_page(final(self).spec_pages().last(), index.0, page_type, old(self).spec_header().page_size)
            },
            r is Err ==> *final(self) == *old(self),
            old(self).spec_header().next_unused_page.0 + 1 >= PAGE_INDEX_LIMIT ==> r == Err::<
                PageIndex,
                RekordcrateError,
            >(RekordcrateError::Pdb(
                crate::pdb::PdbError::InvalidPageIndex(
                    if old(self).spec_header().next_unused_page.0 < u32::MAX {
                        (old(self).spec_header().next_unused_page.0 + 1) as u32
                    } else {
                        0
                    },
                ),
            )),
            old(self).spec_header().next_unused_page.0 + 1 < PAGE_INDEX_LIMIT && !(40
                <= old(self).spec_header().page_size <= 40 + 65535) ==> r == Err::<PageIndex, RekordcrateError>(
                RekordcrateError::IntegrityError("page size out of range"),
            ),
            r is Ok <==> old(self).spec_header().next_unused_page.0 + 1 < PAGE_INDEX_LIMIT && 40
                <= old(self).spec_header().page_size <= 40 + 65535,
            old(self).spec_rows_kept_in(*final(self)),
    {
        let ghost start = *self;
        proof {
            Self::lemma_loaded_kept(start, start);
        }
        let page_index = self.header.next_unused_page;
        if page_index.0 >= PAGE_INDEX_LIMIT - 1 {
            let next = if page_index.0 < u32::MAX {
                page_index.0 + 1
            } else {
                0
            };
            return Err(RekordcrateError::Pdb(crate::pdb::PdbError::InvalidPageIndex(next)));
        }
        let page_size = self.header.page_size;
        if page_size < 40 || page_size > 40 + 65535 {
            return Err(RekordcrateError::IntegrityError("page size out of range"));
        }
        let page = Page::new_data(page_size, page_index, page_type, PageIndex(PAGE_CHAIN_END));
        self.header.next_unused_page = PageIndex(page_index.0 + 1);
        self.pages.push(LazyPage::Loaded(page));
        proof {
            Self::lemma_loaded_kept(start, *self);
        }
        Ok(page_index)
    }

    /// Points the `next_page` of the page `previous` (and, for an index page,
    /// the copy in its index header) at `current`, decoding the page first
    /// where it was not decoded; fails as `ensure_loaded` does.
    fn relink_chain_end(&mut self, previous: PageIndex, current: PageIndex) -> (r: Result<(), RekordcrateError>)
        requires
            old(self).wf(),
        ensures
            final(self).wf(),
            final(self).spec_header() == old(self).spec_header(),
            final(self).spec_data() == old(self).spec_data(),
            final(self).spec_db_type() == old(self).spec_db_type(),
            final(self).spec_pages().len() == old(self).spec_pages().len(),
            forall|i: int|
                0 <= i < old(self).spec_pages().len() && i != previous.0 - 1
                    ==> #[trigger] final(self).spec_pages()[i] == old(self).spec_pages()[i],
            r is Ok ==> (final(self).spec_page(previous) matches Some(p) && p.header.next_page
                == current),
            !old(self).spec_has_page(previous) ==> r == Err::<(), RekordcrateError>(
                RekordcrateError::PageNotPresent(previous),
            ),
            old(self).spec_has_page(previous) && old(self).spec_page(previous) is None && !spec_page_readable(
                old(self).spec_data(),
                previous,
                old(self).spec_header().page_size,
                old(self).spec_db_type(),
            ) ==> r == Err::<(), RekordcrateError>(RekordcrateError::PageNotReadable(previous)),
            r is Ok <==> (old(self).spec_page(previous) is Some || (old(self).spec_has_page(previous)
                && spec_page_readable(
                old(self).spec_data(),
                previous,
                old(self).spec_header().page_size,
                old(self).spec_db_type(),
            ))),
            r is Ok ==> exists|p0: Page|
                #![trigger spec_relinked(p0, current)]
                final(self).spec_page(previous) == Some(spec_relinked(p0, current)) && (old(self).spec_page(
                    previous,
                ) matches Some(q) ==> q == p0) && (old(self).spec_page(previous) is None ==> p0.spec_read(
                    old(self).spec_data(),
                    previous.0 * old(self).spec_header().page_size,
                    old(self).spec_header().page_size,
                    old(self).spec_db_type(),
                )),
            old(self).spec_rows_kept_in(*final(self)),
    {
        let ghost start = *self;
        let r0 = self.ensure_loaded(previous);
        proof {
            Self::lemma_loaded_kept(start, *self);
        }
        match r0 {
            Ok(()) => {},
            Err(e) => {
                return Err(e);
            },
        }
        let ghost mid = *self;
        let i = previous.0 as usize - 1;
        let mut slot = LazyPage::NotLoaded;
        self.pages.set_and_swap(i, &mut slot);
        match slot {
            LazyPage::Loaded(mut page) => {
                let ghost p0 = page;
                page.header.next_page = current;
                if let PageContent::Index(c) = &mut page.content {
                    c.header.next_page = current;
                }
                assert(p0.content is Data ==> page.content == p0.content);
                assert(page == spec_relinked(p0, current));
                self.pages.set(i, LazyPage::Loaded(page));
                assert(spec_page_rows_kept(mid.spec_pages()[i as int], self.spec_pages()[i as int]));
            },
            LazyPage::NotLoaded => {
                assert(mid.spec_page(previous) is Some);
            },
        }
        proof {
            assert forall|j: int| 0 <= j < mid.spec_pages().len() implies spec_page_rows_kept(
                #[trigger] mid.spec_pages()[j],
                self.spec_pages()[j],
            ) by {
                if j != i {
                    assert(self.spec_pages()[j] == mid.spec_pages()[j]);
                }
            }
            Self::lemma_rows_kept(mid, *self);
            Self::lemma_rows_kept_trans(start, mid, *self);
        }
        Ok(())
    }

    /// An iterator over the pages of the table at position `table_index`.
    pub fn iter_pages_for_table(&self, table_index: TableIndex) -> (r: Result<PageIterator, RekordcrateError>)
        ensures
            table_index.0 >= self.spec_header().tables@.len() ==> r == Err::<PageIterator, RekordcrateError>(
                RekordcrateError::TableNotPresent(table_index),
            ),
            table_index.0 < self.spec_header().tables@.len() ==> r == Ok::<PageIterator, RekordcrateError>(
                PageIterator::spec_new(
                    self.spec_header().tables@[table_index.0 as int],
                    self.spec_pages().len() as int,
                ),
            ),
    {
        if table_index.0 >= self.header.tables.len() {
            return Err(RekordcrateError::TableNotPresent(table_index));
        }
        let table = &self.header.tables[table_index.0];
        Ok(PageIterator::new(table, self.pages.len()))
    }

    /// An iterator over the pages of the first table of type `page_type`.
    pub fn iter_pages(&self, page_type: PageType) -> (r: Result<PageIterator, RekordcrateError>)
        ensures
            (forall|j: int| 0 <= j < self.spec_header().tables@.len() ==> self.spec_header().tables@[j].page_type != page_type)
                ==> r == Err::<PageIterator, RekordcrateError>(RekordcrateError::TableTypeNotPresent(page_type)),
            (exists|j: int| 0 <= j < self.spec_header().tables@.len() && self.spec_header().tables@[j].page_type == page_type)
                ==> r is Ok,
            r matches Ok(it) ==> exists|j: int| 0 <= j < self.spec_header().tables@.len()
                && self.spec_header().tables@[j].page_type == page_type
                && (forall|k: int| 0 <= k < j ==> self.spec_header().tables@[k].page_type != page_type)
                && it == PageIterator::spec_new(self.spec_header().tables@[j], self.spec_pages().len() as int),
    {
        match self.header.find_table(page_type) {
            Some((i, table)) => {
                assert(self.spec_header().tables@[i.0 as int] == *table);
                Ok(PageIterator::new(table, self.pages.len()))
            },
            None => Err(RekordcrateError::TableTypeNotPresent(page_type)),
        }
    }

    /// Checks that a track row takes at least `MIN_TRACK_ALLOCATED_SIZE` heap
    /// bytes once rounded up to four.
    pub fn validate_track_row_size(track: &Track) -> (r: Result<(), RekordcrateError>)
        requires
            forall|i: int| 0 <= i < 21 ==> crate::pdb::string::DeviceSQLString::spec_writable(
                #[trigger] track.offsets.inner.spec_items()[i],
            ),
            track.spec_heap_bytes() <= 65532,
        ensures
            crate::pdb::page::round_up4(track.spec_heap_bytes()) >= MIN_TRACK_ALLOCATED_SIZE ==> r is Ok,
            crate::pdb::page::round_up4(track.spec_heap_bytes()) < MIN_TRACK_ALLOCATED_SIZE ==> r
                == Err::<(), RekordcrateError>(RekordcrateError::TrackRowTooSmall {
                    track_id: track.id.0,
                    allocated: crate::pdb::page::round_up4(track.spec_heap_bytes()) as u16,
                    minimum: MIN_TRACK_ALLOCATED_SIZE,
                }),
    {
        let allocated = crate::pdb::page::round_up_to_4(track.heap_bytes_required());
        if allocated < MIN_TRACK_ALLOCATED_SIZE {
            return Err(
                RekordcrateError::TrackRowTooSmall {
                    track_id: track.id.0,
                    allocated,
                    minimum: MIN_TRACK_ALLOCATED_SIZE,
                },
            );
        }
        Ok(())
    }

    /// Tries to store the pending row in the heap of the page `page_index`.
    /// Returns `None` where the page cannot hold it (an index page, or too
    /// little free space), leaving the row pending. Fails as `ensure_loaded`
    /// does, and with `IntegrityError` where the page's counters would overflow
    /// or disagree with its rows (see `spec_counters_broken`).
    fn try_insert_row(&mut self, page_index: PageIndex, row_size: u16, pending: &mut Option<Row>) -> (r: Result<Option<RowRef>, RekordcrateError>)
        requires
            old(self).wf(),
            old(pending).is_some(),
            old(pending).unwrap().spec_writable(),
            row_size <= 65528,
        ensures
            final(self).wf(),
            final(self).spec_header() == old(self).spec_header(),
            final(self).spec_data() == old(self).spec_data(),
            final(self).spec_db_type() == old(self).spec_db_type(),
            final(self).spec_pages().len() == old(self).spec_pages().len(),
            forall|i: int|
                0 <= i < old(self).spec_pages().len() && i != page_index.0 - 1
                    ==> #[trigger] final(self).spec_pages()[i] == old(self).spec_pages()[i],
            !(r matches Ok(Some(_))) ==> *final(pending) == *old(pending),
            !(r matches Ok(Some(_))) ==> forall|i: int|
                0 <= i < old(self).spec_pages().len() && old(self).spec_pages()[i] is Loaded
                    ==> #[trigger] final(self).spec_pages()[i] == old(self).spec_pages()[i],
            r matches Ok(None) ==> (final(self).spec_page(page_index) matches Some(p) && !p.spec_fits(row_size)),
            !old(self).spec_has_page(page_index) ==> r == Err::<Option<RowRef>, RekordcrateError>(
                RekordcrateError::PageNotPresent(page_index),
            ),
            old(self).spec_has_page(page_index) && old(self).spec_page(page_index) is None && !spec_page_readable(
                old(self).spec_data(),
                page_index,
                old(self).spec_header().page_size,
                old(self).spec_db_type(),
            ) ==> r == Err::<Option<RowRef>, RekordcrateError>(RekordcrateError::PageNotReadable(page_index)),
            old(self).spec_loadable(page_index) ==> {
                &&& exists|p0: Page|
                    #![trigger spec_counters_broken(p0, row_size)]
                    old(self).spec_decoded(page_index, p0) && (r is Err <==> spec_counters_broken(p0, row_size)) && (r is Err
                        ==> final(self).spec_page(page_index) == Some(p0)) && (r matches Ok(Some(_))
                        ==> final(self).spec_page(page_index) matches Some(p1) && p1.header.page_type
                        == p0.header.page_type && p1.content is Data) && (!spec_counters_broken(p0, row_size)
                        ==> (r matches Ok(Some(_)) <==> p0.spec_fits(row_size))) && (r matches Ok(Some(rr))
                        ==> rr.row_offset == p0.header.used_size) && (r matches Ok(Some(_))
                        ==> final(self).spec_page(page_index) matches Some(p1) && spec_row_added(
                        p0,
                        row_size,
                        old(pending)->0,
                        p1,
                    ))
                &&& r is Err ==> r == Err::<Option<RowRef>, RekordcrateError>(
                    RekordcrateError::IntegrityError("page counters are inconsistent"),
                )
            },
            r matches Err(e) ==> (e == RekordcrateError::PageNotPresent(page_index) && !old(self).spec_has_page(
                page_index,
            )) || (e == RekordcrateError::PageNotReadable(page_index) && old(self).spec_has_page(page_index)
                && old(self).spec_page(page_index) is None && !spec_page_readable(
                old(self).spec_data(),
                page_index,
                old(self).spec_header().page_size,
                old(self).spec_db_type(),
            )) || (e == RekordcrateError::IntegrityError("page counters are inconsistent") && spec_broken_page(
                final(self).spec_page(page_index),
                row_size,
            )),
            r matches Ok(Some(_)) ==> (old(self).spec_page(page_index) matches Some(q) ==> spec_data_page_of(
                final(self).spec_page(page_index),
                q.header.page_type,
            )),
            r matches Ok(Some(rr)) ==> {
                &&& rr.page_index == page_index
                &&& *final(pending) == None::<Row>
                &&& final(self).spec_page(page_index) matches Some(p)
                &&& p.content matches PageContent::Data(d)
                &&& d.rows@.contains_key(rr.row_offset)
                &&& d.rows@[rr.row_offset] == old(pending)->0
            },
            old(self).spec_rows_kept_in(*final(self)),
    {
        let ghost start = *self;
        let r0 = self.ensure_loaded(page_index);
        proof {
            Self::lemma_loaded_kept(start, *self);
        }
        match r0 {
            Ok(()) => {},
            Err(e) => {
                return Err(e);
            },
        }
        let ghost mid = *self;
        let i = page_index.0 as usize - 1;
        let mut slot = LazyPage::NotLoaded;
        self.pages.set_and_swap(i, &mut slot);
        let mut page = match slot {
            LazyPage::Loaded(p) => p,
            LazyPage::NotLoaded => {
                assert(mid.spec_page(page_index) is Some);
                return Err(RekordcrateError::PageNotPresent(page_index));
            },
        };
        let ghost p0 = page;
        assert(mid.spec_page(page_index) == Some(p0));
        let offset = page.header.used_size;
        let fits = match &page.content {
            PageContent::Data(d) => {
                proof {
                    crate::pdb::page::lemma_offset_keys_hold();
                }
                let b = crate::pdb::page::round_up_to_4(row_size);
                if page.header.free_size >= b + 6 {
                    let n = page.header.packed_row_counts.num_rows();
                    if n >= 8191 || page.header.used_size as u32 + b as u32 > 65535 || n / 16
                        > d.row_groups.len() as u16 || d.rows.contains_key(&offset)
                        || page.header.packed_row_counts.num_rows_valid() >= 2047 {
                        self.pages.set(i, LazyPage::Loaded(page));
                        proof {
                            Self::lemma_page_kept_at(start, mid, *self, i as int);
                            assert(spec_counters_broken(p0, row_size));
                        }
                        return Err(RekordcrateError::IntegrityError("page counters are inconsistent"));
                    }
                    assert(!spec_counters_broken(p0, row_size));
                    true
                } else {
                    false
                }
            },
            PageContent::Index(_) => false,
        };
        assert(!spec_counters_broken(p0, row_size));
        if !fits {
            self.pages.set(i, LazyPage::Loaded(page));
            proof {
                Self::lemma_page_kept_at(start, mid, *self, i as int);
            }
            return Ok(None);
        }
        let slot = match page.allocate_row(row_size) {
            Some(s) => s,
            None => {
                self.pages.set(i, LazyPage::Loaded(page));
                proof {
                    Self::lemma_page_kept_at(start, mid, *self, i as int);
                }
                return Ok(None);
            },
        };
        let ghost p1 = page;
        let row = match pending.take() {
            Some(row) => row,
            None => {
                self.pages.set(i, LazyPage::Loaded(page));
                return Ok(None);
            },
        };
        page.insert_row(slot, row);
        self.pages.set(i, LazyPage::Loaded(page));
        proof {
            let d0 = p0.content->Data_0;
            let d1 = page.content->Data_0;
            assert forall|k: u16| #[trigger] d0.rows@.contains_key(k) implies d1.rows@.contains_key(k)
                && d1.rows@[k] == d0.rows@[k] by {
                assert(p1.content->Data_0.rows == d0.rows);
            }
            Self::lemma_page_kept_at(start, mid, *self, i as int);
            assert(self.spec_page(page_index) == Some(page));
            assert(page.header.page_type == p0.header.page_type);
            if let Some(q) = old(self).spec_page(page_index) {
                assert(old(self).spec_pages()[i as int] is Loaded);
                assert(q == p0);
            }
        }
        Ok(Some(RowRef { page_index, row_offset: offset }))
    }

    /// Every page decoded in `a` is, unchanged, in `b` too, but for the pages
    /// `x` and `y`; `b` has at least the pages of `a`.
    pub open spec fn spec_loaded_kept_but(a: Database, b: Database, x: PageIndex, y: PageIndex) -> bool {
        &&& a.spec_pages().len() <= b.spec_pages().len()
        &&& forall|i: int|
            0 <= i < a.spec_pages().len() && a.spec_pages()[i] is Loaded && i + 1 != x.0 && i + 1 != y.0
                ==> #[trigger] b.spec_pages()[i] == a.spec_pages()[i]
    }

    /// What `add_row` does with `row` in `db`, where the first table of the
    /// row's type is at position `j`, ending in `fin` with the result `r`.
    ///
    /// On success: the page that holds the row is the page it went into as it
    /// was decoded (or freshly allocated) with the row added, at its old used
    /// size, as `allocate_row` and `insert_row` add it (see `spec_row_added`); the header is kept but
    /// for the table's last page, now the page that holds the row, and the
    /// next unused page index, which grows by
    /// one where that page was allocated; the pages decoded before stay as
    /// they were but for that page and the old last one; where the row went into another page
    /// than the old last one, the old last page (and, for an index page, its
    /// index header) points at the new one, which is a data page of the
    /// table's type (for a new page, where the pages end just before the next
    /// unused page index, as in a database just opened or created).
    ///
    /// It fails only where the table's empty candidate is no page index (then
    /// changing nothing), where the old last page is missing or does not
    /// decode, where a page's counters would overflow or disagree with its
    /// rows, where no page index is left for a new page, where the page size
    /// leaves no usable heap, where the new page's index does not follow the
    /// pages (and so names a missing or undecodable page), or where a new page
    /// cannot hold the row.
    pub open spec fn spec_add_row_outcome(
        db: Database,
        fin: Database,
        row: Row,
        j: int,
        r: Result<RowRef, RekordcrateError>,
    ) -> bool {
        let t = row.spec_page_type()->0;
        let h = db.spec_header();
        let fh = fin.spec_header();
        let tables = h.tables@;
        let table = tables[j];
        let last = table.last_page;
        let cand = table.empty_candidate;
        let size = row.spec_heap_bytes() as u16;
        let next = h.next_unused_page;
        &&& Self::spec_add_row_choice(db, fin, row, j, r)
        &&& match r {
            Ok(rr) => {
                &&& fh.page_size == h.page_size
                &&& fh.num_tables == h.num_tables
                &&& fh.unknown == h.unknown
                &&& fh.sequence == h.sequence
                &&& fh.tables@.len() == tables.len()
                &&& forall|k: int| 0 <= k < tables.len() && k != j ==> #[trigger] fh.tables@[k] == tables[k]
                &&& fh.tables@[j] == (Table { last_page: rr.page_index, ..table })
                &&& Self::spec_loaded_kept_but(db, fin, last, rr.page_index)
                &&& (fh.next_unused_page == next || (fh.next_unused_page.0 == next.0 + 1 && rr.page_index
                    == next))
                &&& (rr.page_index != next || db.spec_pages().len() + 1 == next.0) ==> exists|p0: Page|
                    #![trigger spec_row_added(p0, size, row, fin.spec_page(rr.page_index)->0)]
                    (db.spec_decoded(rr.page_index, p0) || (rr.page_index == next && spec_fresh_data_page(
                        LazyPage::Loaded(p0),
                        next.0,
                        t,
                        h.page_size,
                    ))) && rr.row_offset == p0.header.used_size && fin.spec_page(rr.page_index) is Some
                        && spec_row_added(p0, size, row, fin.spec_page(rr.page_index)->0)
                &&& rr.page_index != last ==> spec_relinked_to(fin.spec_page(last), rr.page_index)
                &&& rr.page_index != last && (rr.page_index != next || db.spec_pages().len() + 1 == next.0)
                    ==> spec_data_page_of(fin.spec_page(rr.page_index), t)
            },
            Err(e) => {
                ||| cand >= PAGE_INDEX_LIMIT && e == RekordcrateError::Pdb(crate::pdb::PdbError::InvalidPageIndex(cand))
                    && fin == db
                ||| !db.spec_has_page(last) && e == RekordcrateError::PageNotPresent(last)
                ||| db.spec_has_page(last) && db.spec_page(last) is None && !spec_page_readable(
                    db.spec_data(),
                    last,
                    h.page_size,
                    db.spec_db_type(),
                ) && e == RekordcrateError::PageNotReadable(last)
                ||| e == RekordcrateError::IntegrityError("page counters are inconsistent") && exists|idx: PageIndex|
                    #![trigger fin.spec_page(idx)]
                    spec_broken_page(fin.spec_page(idx), size)
                ||| next.0 + 1 >= PAGE_INDEX_LIMIT && e == RekordcrateError::Pdb(
                    crate::pdb::PdbError::InvalidPageIndex(
                        if next.0 < u32::MAX {
                            (next.0 + 1) as u32
                        } else {
                            0
                        },
                    ),
                )
                ||| next.0 + 1 < PAGE_INDEX_LIMIT && !(40 <= h.page_size <= 40 + 65535) && e
                    == RekordcrateError::IntegrityError("page size out of range")
                ||| (e == RekordcrateError::PageNotPresent(next) || e == RekordcrateError::PageNotReadable(next))
                    && db.spec_pages().len() + 1 != next.0
                ||| e == RekordcrateError::IntegrityError("newly allocated page has no room for row")
                    && spec_page_without_room(fin.spec_page(next), size)
            },
        }
    }

    /// Which page `add_row` puts `row` in, for the first table of its type at
    /// position `j` of `db`: the table's last page where, as decoded, its
    /// counters are in order and it has room, at the page's used size;
    /// else the table's empty candidate page, where that is another page that
    /// decodes to a data page of the table's type with its counters in order
    /// and room, at its used size; else a newly allocated page (see
    /// `spec_add_row_new_page`).
    pub open spec fn spec_add_row_choice(
        db: Database,
        fin: Database,
        row: Row,
        j: int,
        r: Result<RowRef, RekordcrateError>,
    ) -> bool {
        let table = db.spec_header().tables@[j];
        let last = table.last_page;
        let size = row.spec_heap_bytes() as u16;
        table.empty_candidate < PAGE_INDEX_LIMIT && db.spec_loadable(last) ==> exists|pl: Page|
            #![trigger db.spec_decoded(last, pl)]
            db.spec_decoded(last, pl) && (!spec_counters_broken(pl, size) ==> {
                &&& pl.spec_fits(size) ==> r == Ok::<RowRef, RekordcrateError>(
                    RowRef { page_index: last, row_offset: pl.header.used_size },
                ) && fin.spec_header().next_unused_page == db.spec_header().next_unused_page
                &&& !pl.spec_fits(size) ==> Self::spec_add_row_past_last(db, fin, row, j, r)
            })
    }

    /// Where the table's last page has no room: the empty candidate page where
    /// it can take the row, else a newly allocated page.
    pub open spec fn spec_add_row_past_last(
        db: Database,
        fin: Database,
        row: Row,
        j: int,
        r: Result<RowRef, RekordcrateError>,
    ) -> bool {
        let t = row.spec_page_type()->0;
        let table = db.spec_header().tables@[j];
        let cand = PageIndex(table.empty_candidate);
        let size = row.spec_heap_bytes() as u16;
        let use_cand = cand != table.last_page && db.spec_loadable(cand);
        &&& use_cand ==> exists|pc: Page|
            #![trigger db.spec_decoded(cand, pc)]
            db.spec_decoded(cand, pc) && (pc.header.page_type == t && pc.content is Data ==> (
            !spec_counters_broken(pc, size) ==> {
                &&& pc.spec_fits(size) ==> r == Ok::<RowRef, RekordcrateError>(
                    RowRef { page_index: cand, row_offset: pc.header.used_size },
                ) && fin.spec_header().next_unused_page == db.spec_header().next_unused_page
                &&& !pc.spec_fits(size) ==> Self::spec_add_row_new_page(db, fin, r)
            })) && (!(pc.header.page_type == t && pc.content is Data) ==> Self::spec_add_row_new_page(
                db,
                fin,
                r,
            ))
        &&& !use_cand ==> Self::spec_add_row_new_page(db, fin, r)
    }

    /// The row went into a newly allocated page: the next unused page index,
    /// which grows by one, at offset 0 where the pages end just before it.
    pub open spec fn spec_add_row_new_page(db: Database, fin: Database, r: Result<RowRef, RekordcrateError>) -> bool {
        let next = db.spec_header().next_unused_page;
        r matches Ok(rr) ==> {
            &&& rr.page_index == next
            &&& fin.spec_header().next_unused_page.0 == next.0 + 1
            &&& db.spec_pages().len() + 1 == next.0 ==> rr.row_offset == 0
        }
    }

    /// The page `idx` is decoded, or exists and its bytes decode.
    pub open spec fn spec_loadable(&self, idx: PageIndex) -> bool {
        ||| self.spec_page(idx) is Some
        ||| self.spec_has_page(idx) && spec_page_readable(
            self.spec_data(),
            idx,
            self.spec_header().page_size,
            self.spec_db_type(),
        )
    }

    /// `p` is the page `idx` as decoded: the decoded page where there is one,
    /// else what its bytes decode to.
    pub open spec fn spec_decoded(&self, idx: PageIndex, p: Page) -> bool {
        &&& self.spec_page(idx) matches Some(q) ==> q == p
        &&& self.spec_page(idx) is None ==> p.spec_read(
            self.spec_data(),
            idx.0 * self.spec_header().page_size,
            self.spec_header().page_size,
            self.spec_db_type(),
        )
    }

    /// The first table of type `t` in `tables` is at position `j`.
    pub open spec fn spec_first_table(tables: Seq<Table>, t: PageType, j: int) -> bool {
        &&& 0 <= j < tables.len()
        &&& tables[j].page_type == t
        &&& forall|k: int| 0 <= k < j ==> tables[k].page_type != t
    }

    /// The row `row` is stored at `rr`: in the decoded data page `rr.page_index`,
    /// at heap offset `rr.row_offset`.
    pub open spec fn spec_row_at(&self, rr: RowRef, row: Row) -> bool {
        &&& self.spec_page(rr.page_index) matches Some(p)
        &&& p.content matches PageContent::Data(d)
        &&& d.rows@.contains_key(rr.row_offset)
        &&& d.rows@[rr.row_offset] == row
    }

    /// Every row stored in `self` is stored, the same, at the same place in
    /// `other`.
    pub open spec fn spec_rows_kept_in(&self, other: Database) -> bool {
        forall|rr: RowRef, row: Row| #[trigger] self.spec_row_at(rr, row) ==> other.spec_row_at(rr, row)
    }

    /// A database keeps its own rows.
    pub proof fn lemma_rows_kept_refl(a: Database)
        ensures
            a.spec_rows_kept_in(a),
    {
    }

    /// Keeping the rows is transitive.
    pub proof fn lemma_rows_kept_trans(a: Database, b: Database, c: Database)
        requires
            a.spec_rows_kept_in(b),
            b.spec_rows_kept_in(c),
        ensures
            a.spec_rows_kept_in(c),
    {
        assert forall|rr: RowRef, row: Row| #[trigger] a.spec_row_at(rr, row) implies c.spec_row_at(rr, row) by {
            assert(b.spec_row_at(rr, row));
        }
    }

    /// Where `mid` keeps the rows of `start`, and `new` differs from `mid` at
    /// most in the page at place `i`, which keeps its rows, `new` keeps the
    /// rows of `start`.
    proof fn lemma_page_kept_at(start: Database, mid: Database, new: Database, i: int)
        requires
            start.spec_rows_kept_in(mid),
            mid.spec_pages().len() == new.spec_pages().len(),
            0 <= i < mid.spec_pages().len(),
            forall|j: int| 0 <= j < mid.spec_pages().len() && j != i ==> #[trigger] new.spec_pages()[j] == mid.spec_pages()[j],
            new.spec_pages()[i] == mid.spec_pages()[i] || spec_page_rows_kept(mid.spec_pages()[i], new.spec_pages()[i]),
        ensures
            start.spec_rows_kept_in(new),
    {
        lemma_page_rows_kept_refl(mid.spec_pages()[i]);
        assert forall|j: int| 0 <= j < mid.spec_pages().len() implies spec_page_rows_kept(
            #[trigger] mid.spec_pages()[j],
            new.spec_pages()[j],
        ) by {
            if j != i {
                lemma_page_rows_kept_refl(mid.spec_pages()[j]);
            }
        }
        Self::lemma_rows_kept(mid, new);
        Self::lemma_rows_kept_trans(start, mid, new);
    }

    /// Where no page is dropped and every decoded page stays as it is, every
    /// stored row is kept.
    proof fn lemma_loaded_kept(a: Database, b: Database)
        requires
            a.spec_pages().len() <= b.spec_pages().len(),
            forall|i: int|
                0 <= i < a.spec_pages().len() && a.spec_pages()[i] is Loaded ==> #[trigger] b.spec_pages()[i]
                    == a.spec_pages()[i],
        ensures
            a.spec_rows_kept_in(b),
    {
        assert forall|i: int| 0 <= i < a.spec_pages().len() implies spec_page_rows_kept(
            #[trigger] a.spec_pages()[i],
            b.spec_pages()[i],
        ) by {
            if a.spec_pages()[i] is Loaded {
                assert(b.spec_pages()[i] == a.spec_pages()[i]);
                lemma_page_rows_kept_refl(a.spec_pages()[i]);
            }
        }
        Self::lemma_rows_kept(a, b);
    }

    /// Where no page is dropped and each decoded data page keeps its rows (as
    /// a decoded data page), every stored row is kept.
    proof fn lemma_rows_kept(a: Database, b: Database)
        requires
            a.spec_pages().len() <= b.spec_pages().len(),
            forall|i: int|
                0 <= i < a.spec_pages().len() ==> spec_page_rows_kept(#[trigger] a.spec_pages()[i], b.spec_pages()[i]),
        ensures
            a.spec_rows_kept_in(b),
    {
        assert forall|rr: RowRef, row: Row| #[trigger] a.spec_row_at(rr, row) implies b.spec_row_at(rr, row) by {
            assert(spec_page_rows_kept(a.spec_pages()[rr.page_index.0 - 1], b.spec_pages()[rr.page_index.0 - 1]));
        }
    }

    /// Adds a row to the first table of its type, and returns where it went.
    ///
    /// The row goes into the last page of the table where that page has room;
    /// else into the table's empty candidate page, where that is a data page of
    /// the table's type with room, which then ends the table; else into a newly
    /// allocated data page, which then ends the table. Track rows that take
    /// fewer than `MIN_TRACK_ALLOCATED_SIZE` heap bytes are refused, as are
    /// unknown rows and rows without a table, leaving the database unchanged;
    /// see `spec_add_row_outcome` for the rest. A stored row is reached along
    /// the table's chain (`lemma_added_row_reached`) and, once the database is
    /// flushed, reads back from its place (`lemma_added_row_page_ok`,
    /// `lemma_added_row_flushed`).
    #[verifier::rlimit(100)]
    #[verifier::spinoff_prover]
    pub fn add_row(&mut self, row: Row) -> (r: Result<RowRef, RekordcrateError>)
        requires
            old(self).wf(),
            row matches Row::Plain(PlainRow::Track(_)) ==> row.spec_writable() && row.spec_heap_bytes() <= 65532,
            row.spec_page_type() matches Some(t) && (exists|j: int|
                0 <= j < old(self).spec_header().tables@.len() && old(self).spec_header().tables@[j].page_type
                    == t) ==> row.spec_writable() && row.spec_heap_bytes() <= 65528,
        ensures
            final(self).wf(),
            final(self).spec_db_type() == old(self).spec_db_type(),
            row matches Row::Plain(PlainRow::Track(t)) ==> (crate::pdb::page::round_up4(
                t.spec_heap_bytes(),
            ) < MIN_TRACK_ALLOCATED_SIZE ==> r == Err::<RowRef, RekordcrateError>(
                RekordcrateError::TrackRowTooSmall {
                    track_id: t.id.0,
                    allocated: crate::pdb::page::round_up4(t.spec_heap_bytes()) as u16,
                    minimum: MIN_TRACK_ALLOCATED_SIZE,
                },
            )),
            row is Unknown ==> r == Err::<RowRef, RekordcrateError>(RekordcrateError::UnknownRowType),
            (row.spec_page_type() matches Some(t) && forall|j: int|
                0 <= j < old(self).spec_header().tables@.len()
                    ==> old(self).spec_header().tables@[j].page_type != t)
                && !(row matches Row::Plain(PlainRow::Track(tr)) && crate::pdb::page::round_up4(
                tr.spec_heap_bytes(),
            ) < MIN_TRACK_ALLOCATED_SIZE) ==> r == Err::<RowRef, RekordcrateError>(
                RekordcrateError::TableTypeNotPresent(row.spec_page_type()->0),
            ),
            r matches Ok(rr) ==> {
                &&& final(self).spec_row_at(rr, row)
                &&& exists|j: int|
                    Self::spec_first_table(final(self).spec_header().tables@, row.spec_page_type()->0, j)
                        && final(self).spec_header().tables@[j].last_page == rr.page_index
            },
            (row is Unknown || (row matches Row::Plain(PlainRow::Track(t)) && crate::pdb::page::round_up4(
                t.spec_heap_bytes(),
            ) < MIN_TRACK_ALLOCATED_SIZE) || (row.spec_page_type() matches Some(t) && forall|j: int|
                0 <= j < old(self).spec_header().tables@.len()
                    ==> old(self).spec_header().tables@[j].page_type != t)) ==> *final(self) == *old(self),
            forall|j: int|
                #![trigger Self::spec_first_table(old(self).spec_header().tables@, row.spec_page_type()->0, j)]
                row.spec_page_type() is Some && !(row matches Row::Plain(PlainRow::Track(t))
                    && crate::pdb::page::round_up4(t.spec_heap_bytes()) < MIN_TRACK_ALLOCATED_SIZE)
                    && Self::spec_first_table(old(self).spec_header().tables@, row.spec_page_type()->0, j)
                    ==> Self::spec_add_row_outcome(*old(self), *final(self), row, j, r),
            old(self).spec_rows_kept_in(*final(self)),
    {
        let ghost start = *self;
        proof {
            Self::lemma_loaded_kept(start, start);
        }
        if let Row::Plain(PlainRow::Track(track)) = &row {
            match Self::validate_track_row_size(track) {
                Ok(()) => {},
                Err(e) => {
                    return Err(e);
                },
            }
        }
        let page_type = match row.page_type() {
            Some(t) => t,
            None => {
                return Err(RekordcrateError::UnknownRowType);
            },
        };
        let (table_index, table) = match self.header.find_table(page_type) {
            Some(x) => x,
            None => {
                return Err(RekordcrateError::TableTypeNotPresent(page_type));
            },
        };
        let row_size = row.heap_bytes_required();
        let ghost the_row = row;
        let mut pending = Some(row);
        let old_last_page = table.last_page;
        let candidate_raw = table.empty_candidate;
        let ghost j = table_index.0 as int;
        let ghost tbl = *table;
        let ghost next = start.spec_header().next_unused_page;
        assert(Self::spec_first_table(self.spec_header().tables@, page_type, j));
        assert(row_size == the_row.spec_heap_bytes() as u16);
        let empty_candidate = if candidate_raw < PAGE_INDEX_LIMIT {
            PageIndex(candidate_raw)
        } else {
            return Err(RekordcrateError::Pdb(crate::pdb::PdbError::InvalidPageIndex(candidate_raw)));
        };
        let ghost before = *self;
        let r1 = self.try_insert_row(old_last_page, row_size, &mut pending);
        proof {
            Self::lemma_rows_kept_trans(start, before, *self);
        }
        let ghost pl: Page = choose|p0: Page|
            start.spec_decoded(old_last_page, p0) && (r1 is Err <==> spec_counters_broken(p0, row_size)) && (
            !spec_counters_broken(p0, row_size) ==> (r1 matches Ok(Some(_)) <==> p0.spec_fits(row_size)))
                && (r1 matches Ok(Some(rr)) ==> rr.row_offset == p0.header.used_size) && (r1 matches Ok(Some(_))
                ==> self.spec_page(old_last_page) matches Some(p1) && spec_row_added(p0, row_size, the_row, p1));
        proof {
            if start.spec_loadable(old_last_page) {
                assert(start.spec_decoded(old_last_page, pl));
            }
        }
        match r1 {
            Ok(Some(rr)) => {
                assert(self.spec_header().tables@[j] == (Table { last_page: rr.page_index, ..tbl }));
                assert(rr == RowRef { page_index: old_last_page, row_offset: pl.header.used_size });
                assert(Self::spec_loaded_kept_but(start, *self, old_last_page, rr.page_index));
                return Ok(rr);
            },
            Ok(None) => {},
            Err(e) => {
                proof {
                    if e == RekordcrateError::IntegrityError("page counters are inconsistent") {
                        assert(spec_broken_page(self.spec_page(old_last_page), row_size));
                    }
                }
                return Err(e);
            },
        }
        assert(!spec_counters_broken(pl, row_size) && !pl.spec_fits(row_size));
        assert(Self::spec_loaded_kept_but(start, *self, old_last_page, old_last_page));
        let ghost mid = *self;
        let ghost mut pc: Page = pl;
        let ghost cand_ok: bool = empty_candidate != old_last_page && start.spec_loadable(empty_candidate);
        proof {
            if empty_candidate != old_last_page {
                assert(mid.spec_page(empty_candidate) == start.spec_page(empty_candidate));
                assert(mid.spec_loadable(empty_candidate) == start.spec_loadable(empty_candidate));
            }
        }
        assert(self.spec_page(old_last_page) is Some);
        let mut use_candidate = false;
        if empty_candidate != old_last_page {
            let ghost before = *self;
            let r2 = self.ensure_loaded(empty_candidate);
            proof {
                Self::lemma_loaded_kept(before, *self);
                Self::lemma_rows_kept_trans(start, before, *self);
                assert(before.spec_pages()[old_last_page.0 - 1] is Loaded);
            }
            proof {
                if r2 is Ok {
                    pc = self.spec_page(empty_candidate)->0;
                    assert(start.spec_decoded(empty_candidate, pc));
                }
            }
            if let Ok(()) = r2 {
                if let Some(page) = self.page(empty_candidate) {
                    use_candidate = page.header.page_type == page_type && page.content.is_data();
                }
            }
        }
        assert(Self::spec_loaded_kept_but(start, *self, old_last_page, old_last_page));
        assert(cand_ok ==> start.spec_decoded(empty_candidate, pc) && self.spec_page(empty_candidate) == Some(pc));
        assert(use_candidate <==> cand_ok && pc.header.page_type == page_type && pc.content is Data);
        assert(self.spec_page(old_last_page) is Some);
        assert(self.spec_header() == start.spec_header());
        if use_candidate {
            assert(spec_data_page_of(self.spec_page(empty_candidate), page_type));
            let ghost before = *self;
            let r3 = self.try_insert_row(empty_candidate, row_size, &mut pending);
            proof {
                Self::lemma_rows_kept_trans(start, before, *self);
            }
            let ghost pc3: Page = choose|p0: Page|
                before.spec_decoded(empty_candidate, p0) && (r3 is Err <==> spec_counters_broken(p0, row_size)) && (
                !spec_counters_broken(p0, row_size) ==> (r3 matches Ok(Some(_)) <==> p0.spec_fits(row_size)))
                    && (r3 matches Ok(Some(rr)) ==> rr.row_offset == p0.header.used_size) && (r3 matches Ok(Some(_))
                    ==> self.spec_page(empty_candidate) matches Some(p1) && spec_row_added(p0, row_size, the_row, p1));
            assert(pc3 == pc);
            match r3 {
                Ok(Some(rr)) => {
                    assert(Self::spec_loaded_kept_but(start, *self, old_last_page, empty_candidate));
                    assert(spec_data_page_of(self.spec_page(empty_candidate), page_type));
                    assert(self.spec_page(old_last_page) is Some) by {
                        assert(before.spec_pages()[old_last_page.0 - 1] is Loaded);
                    }
                    let ghost before2 = *self;
                    let r4 = self.relink_chain_end(old_last_page, empty_candidate);
                    proof {
                        Self::lemma_rows_kept_trans(start, before2, *self);
                    }
                    match r4 {
                        Ok(()) => {},
                        Err(e) => {
                            return Err(e);
                        },
                    }
                    assert(Self::spec_loaded_kept_but(start, *self, old_last_page, empty_candidate));
                    proof {
                        assert(self.spec_page(empty_candidate) == before2.spec_page(empty_candidate));
                        let p0 = before2.spec_page(old_last_page)->0;
                        assert(self.spec_page(old_last_page) == Some(spec_relinked(p0, empty_candidate)));
                        assert(spec_relinked_to(self.spec_page(old_last_page), empty_candidate));
                    }
                    let ghost before3 = *self;
                    match self.header.find_table_mut(page_type) {
                        Some((_, table)) => {
                            table.last_page = empty_candidate;
                        },
                        None => {
                            assert(before3.spec_header().tables@[j].page_type == page_type);
                            return Err(RekordcrateError::TableTypeNotPresent(page_type));
                        },
                    }
                    proof {
                        Self::lemma_loaded_kept(before3, *self);
                        Self::lemma_rows_kept_trans(start, before3, *self);
                        assert(self.spec_pages() == before3.spec_pages());
                    }
                    assert(Self::spec_first_table(self.spec_header().tables@, page_type, j));
                    assert(self.spec_header().tables@[j] == (Table { last_page: rr.page_index, ..tbl }));
                    assert(rr == RowRef { page_index: empty_candidate, row_offset: pc.header.used_size });
                    assert(start.spec_decoded(empty_candidate, pc));
                    assert(start.spec_decoded(old_last_page, pl));
                    assert(Self::spec_loaded_kept_but(start, *self, old_last_page, rr.page_index));
                    return Ok(rr);
                },
                Ok(None) => {},
                Err(e) => {
                    proof {
                        if e == RekordcrateError::IntegrityError("page counters are inconsistent") {
                            assert(spec_broken_page(self.spec_page(empty_candidate), row_size));
                        }
                    }
                    return Err(e);
                },
            }
            assert(self.spec_page(old_last_page) is Some) by {
                assert(before.spec_pages()[old_last_page.0 - 1] is Loaded);
            }
        }
        assert(self.spec_header() == start.spec_header());
        assert(Self::spec_loaded_kept_but(start, *self, old_last_page, old_last_page));
        let ghost before4 = *self;
        let r5 = self.alloc_data_page(page_type);
        proof {
            Self::lemma_rows_kept_trans(start, before4, *self);
        }
        let new_page_index = match r5 {
            Ok(index) => index,
            Err(e) => {
                return Err(e);
            },
        };
        proof {
            assert(self.spec_page(old_last_page) == before4.spec_page(old_last_page));
            if start.spec_pages().len() + 1 == next.0 {
                assert(self.spec_page(new_page_index) == Some(self.spec_pages().last()->0));
                assert(spec_data_page_of(self.spec_page(new_page_index), page_type));
            }
        }
        assert(Self::spec_loaded_kept_but(start, *self, old_last_page, old_last_page));
        let ghost before5 = *self;
        let r6 = self.relink_chain_end(old_last_page, new_page_index);
        proof {
            Self::lemma_rows_kept_trans(start, before5, *self);
        }
        match r6 {
            Ok(()) => {},
            Err(e) => {
                return Err(e);
            },
        }
        proof {
            let p0 = before5.spec_page(old_last_page)->0;
            assert(self.spec_page(old_last_page) == Some(spec_relinked(p0, new_page_index)));
            if new_page_index != old_last_page {
                assert(self.spec_page(new_page_index) == before5.spec_page(new_page_index));
            }
        }
        assert(Self::spec_loaded_kept_but(start, *self, old_last_page, old_last_page));
        let ghost before6 = *self;
        match self.header.find_table_mut(page_type) {
            Some((_, table)) => {
                table.last_page = new_page_index;
            },
            None => {
                assert(before6.spec_header().tables@[j].page_type == page_type);
                return Err(RekordcrateError::TableTypeNotPresent(page_type));
            },
        }
        proof {
            Self::lemma_loaded_kept(before6, *self);
            Self::lemma_rows_kept_trans(start, before6, *self);
            assert(self.spec_pages() == before6.spec_pages());
        }
        assert(Self::spec_first_table(self.spec_header().tables@, page_type, j));
        assert(Self::spec_loaded_kept_but(start, *self, old_last_page, old_last_page));
        let ghost before7 = *self;
        let r7 = self.try_insert_row(new_page_index, row_size, &mut pending);
        proof {
            Self::lemma_rows_kept_trans(start, before7, *self);
            if new_page_index != old_last_page {
                assert(self.spec_page(old_last_page) == before7.spec_page(old_last_page));
            }
        }
        match r7 {
            Ok(Some(rr)) => {
                assert(self.spec_header().tables@[j] == (Table { last_page: rr.page_index, ..tbl }));
                assert(Self::spec_loaded_kept_but(start, *self, old_last_page, rr.page_index));
                Ok(rr)
            },
            Ok(None) => {
                assert(spec_page_without_room(self.spec_page(new_page_index), row_size));
                Err(RekordcrateError::IntegrityError("newly allocated page has no room for row"))
            },
            Err(e) => {
                proof {
                    if e == RekordcrateError::IntegrityError("page counters are inconsistent") {
                        assert(spec_broken_page(self.spec_page(new_page_index), row_size));
                    }
                }
                Err(e)
            },
        }
    }

    /// Checks the size of every track row in the pages of the track table of a
    /// plain database; other databases are not checked.
    fn validate_all_track_rows(&mut self) -> (r: Result<(), RekordcrateError>)
        requires
            old(self).wf(),
        ensures
            final(self).wf(),
            final(self).spec_header() == old(self).spec_header(),
            final(self).spec_data() == old(self).spec_data(),
            final(self).spec_db_type() == old(self).spec_db_type(),
            final(self).spec_pages().len() == old(self).spec_pages().len(),
            forall|i: int|
                0 <= i < old(self).spec_pages().len() && old(self).spec_pages()[i] is Loaded
                    ==> #[trigger] final(self).spec_pages()[i] == old(self).spec_pages()[i],
            old(self).spec_db_type() != DatabaseType::Plain ==> r is Ok && final(self).spec_pages()
                == old(self).spec_pages(),
            old(self).spec_db_type() == DatabaseType::Plain && (forall|j: int|
                0 <= j < old(self).spec_header().tables@.len() ==> old(self).spec_header().tables@[j].page_type
                    != PageType::Plain(PlainPageType::Tracks)) ==> r == Err::<(), RekordcrateError>(
                RekordcrateError::TableTypeNotPresent(PageType::Plain(PlainPageType::Tracks)),
            ),
            r is Ok && old(self).spec_db_type() == DatabaseType::Plain ==> exists|j: int, visited: Seq<PageIndex>|
                Self::spec_first_table(
                    old(self).spec_header().tables@,
                    PageType::Plain(PlainPageType::Tracks),
                    j,
                ) && final(self).spec_walk(
                    PageIterator::spec_new(
                        old(self).spec_header().tables@[j],
                        old(self).spec_pages().len() as int,
                    ),
                    visited,
                ) && final(self).spec_tracks_ok(visited),
            old(self).spec_db_type() == DatabaseType::Plain ==> (r matches Err(e) ==> final(self).spec_tracks_refusal(
                *old(self),
                e,
            )),
            r is Err ==> final(self).spec_data() == old(self).spec_data(),
    {
        if self.db_type != DatabaseType::Plain {
            return Ok(());
        }
        let mut it = match self.iter_pages(PageType::Plain(PlainPageType::Tracks)) {
            Ok(it) => it,
            Err(e) => {
                return Err(e);
            },
        };
        let ghost it0 = it;
        let ghost tj: int;
        proof {
            let tables = old(self).spec_header().tables@;
            tj = choose|j: int|
                0 <= j < tables.len() && tables[j].page_type == PageType::Plain(PlainPageType::Tracks)
                    && (forall|k: int| 0 <= k < j ==> tables[k].page_type != PageType::Plain(PlainPageType::Tracks))
                    && it == PageIterator::spec_new(tables[j], old(self).spec_pages().len() as int);
            assert(Self::spec_first_table(tables, PageType::Plain(PlainPageType::Tracks), tj));
        }
        let ghost mut its: Seq<PageIterator> = seq![it];
        let ghost mut visited: Seq<PageIndex> = Seq::empty();
        loop
            invariant
                self.wf(),
                self.spec_header() == old(self).spec_header(),
                self.spec_data() == old(self).spec_data(),
                self.spec_db_type() == old(self).spec_db_type(),
                self.spec_db_type() == DatabaseType::Plain,
                self.spec_pages().len() == old(self).spec_pages().len(),
                it.pages_offset >= 1,
                it.pages_offset - 1 + it.remaining <= self.spec_pages().len(),
                forall|i: int|
                    0 <= i < old(self).spec_pages().len() && old(self).spec_pages()[i] is Loaded
                        ==> #[trigger] self.spec_pages()[i] == old(self).spec_pages()[i],
                Self::spec_first_table(
                    old(self).spec_header().tables@,
                    PageType::Plain(PlainPageType::Tracks),
                    tj,
                ),
                it0 == PageIterator::spec_new(
                    old(self).spec_header().tables@[tj],
                    old(self).spec_pages().len() as int,
                ),
                its.len() == visited.len() + 1,
                its[0] == it0,
                its.last() == it,
                forall|i: int| 0 <= i < visited.len() ==> self.spec_step(its[i], #[trigger] visited[i], its[i + 1]),
                self.spec_tracks_ok(visited),
            decreases it.remaining,
        {
            let ghost before = *self;
            let ghost it_before = it;
            let p = match it.next(self) {
                Ok(Some(p)) => p,
                Ok(None) => {
                    assert(self.spec_walk(it0, visited));
                    return Ok(());
                },
                Err(e) => {
                    proof {
                        assert(self.spec_pages() == before.spec_pages());
                        assert forall|i: int| 0 <= i < visited.len() implies self.spec_step(
                            its[i],
                            #[trigger] visited[i],
                            its[i + 1],
                        ) by {
                            assert(before.spec_step(its[i], visited[i], its[i + 1]));
                        }
                        let q = it_before.next_page->0;
                        assert(self.spec_step_error(its.last(), q, e));
                        assert(self.spec_walk_fails(it0, e));
                    }
                    return Err(e);
                },
            };
            proof {
                assert forall|i: int| 0 <= i < visited.len() implies #[trigger] self.spec_page(visited[i])
                    == before.spec_page(visited[i]) by {
                    let q = visited[i];
                    assert(before.spec_step(its[i], visited[i], its[i + 1]));
                    assert(before.spec_pages()[q.0 - 1] is Loaded);
                }
                assert forall|i: int| 0 <= i < visited.len() implies self.spec_step(
                    its[i],
                    #[trigger] visited[i],
                    its[i + 1],
                ) by {
                    assert(before.spec_step(its[i], visited[i], its[i + 1]));
                    assert(self.spec_page(visited[i]) == before.spec_page(visited[i]));
                }
                assert forall|i: int| 0 <= i < visited.len() implies (self.spec_page(#[trigger] visited[i]) matches Some(pg) ==> (
                    pg.content matches PageContent::Data(d) ==> spec_track_rows_ok(d))) by {
                    assert(self.spec_page(visited[i]) == before.spec_page(visited[i]));
                }
            }
            let page = match self.page(p) {
                Some(page) => page,
                None => {
                    return Err(RekordcrateError::PageNotPresent(p));
                },
            };
            assert(page.spec_writable());
            if let PageContent::Data(data) = &page.content {
                match check_track_rows(data) {
                    Ok(()) => {},
                    Err(e) => {
                        proof {
                            assert(self.spec_page(p) matches Some(pg) && pg.content matches PageContent::Data(d)
                                && !spec_track_rows_ok(d));
                        }
                        return Err(e);
                    },
                }
            }
            proof {
                let old_visited = visited;
                let old_its = its;
                assert(self.spec_step(it_before, p, it));
                visited = visited.push(p);
                its = its.push(it);
                assert forall|i: int| 0 <= i < visited.len() implies self.spec_step(
                    its[i],
                    #[trigger] visited[i],
                    its[i + 1],
                ) by {
                    if i < old_visited.len() {
                        assert(visited[i] == old_visited[i]);
                        assert(its[i] == old_its[i] && its[i + 1] == old_its[i + 1]);
                    }
                }
                assert forall|i: int| 0 <= i < visited.len() implies (self.spec_page(#[trigger] visited[i]) matches Some(pg) ==> (
                    pg.content matches PageContent::Data(d) ==> spec_track_rows_ok(d))) by {
                    if i < old_visited.len() {
                        assert(visited[i] == old_visited[i]);
                    }
                }
            }
        }
    }

    /// Writes all changes into the bytes of the database: after checking the
    /// size of the track rows (see `add_row`), the header at the start, padded
    /// with zeros to a full page, then every decoded page in its place after
    /// it; pages never decoded keep their bytes.
    ///
    /// A plain database without a track table fails with
    /// `TableTypeNotPresent`; the track rows are checked before anything is
    /// written, and a refusal there leaves the bytes as they were. After a
    /// flush, or a failure while writing, every track row of the pages of the
    /// track table has an allowed size.
    ///
    /// What is flushed is opened again: where the header is well formed and
    /// the row groups of every decoded page fit into a page, the new bytes
    /// begin with the encoding of the header, which `open` decodes to it (and
    /// see `lemma_flushed_pages_read` for the pages).
    pub fn flush(&mut self) -> (r: Result<(), RekordcrateError>)
        requires
            old(self).wf(),
        ensures
            final(self).wf(),
            final(self).spec_header() == old(self).spec_header(),
            final(self).spec_db_type() == old(self).spec_db_type(),
            final(self).spec_pages().len() == old(self).spec_pages().len(),
            forall|i: int|
                0 <= i < old(self).spec_pages().len() && old(self).spec_pages()[i] is Loaded
                    ==> #[trigger] final(self).spec_pages()[i] == old(self).spec_pages()[i],
            r is Ok ==> old(self).spec_flushed(final(self).spec_data(), final(self).spec_pages()),
            r is Ok && old(self).spec_header()@.spec_wf(old(self).spec_db_type()) && final(self).spec_pages_fit()
                ==> HeaderModel::spec_parse(final(self).spec_data(), 0, old(self).spec_db_type()) == Some(
                (old(self).spec_header()@, old(self).spec_header()@.spec_bytes().len() as int),
            ),
            old(self).spec_db_type() == DatabaseType::Plain && (forall|j: int|
                0 <= j < old(self).spec_header().tables@.len() ==> old(self).spec_header().tables@[j].page_type
                    != PageType::Plain(PlainPageType::Tracks)) ==> r == Err::<(), RekordcrateError>(
                RekordcrateError::TableTypeNotPresent(PageType::Plain(PlainPageType::Tracks)),
            ),
            (r is Ok || (r matches Err(e) && e is Write)) && old(self).spec_db_type() == DatabaseType::Plain ==> exists|j: int, visited: Seq<PageIndex>|
                Self::spec_first_table(
                    old(self).spec_header().tables@,
                    PageType::Plain(PlainPageType::Tracks),
                    j,
                ) && final(self).spec_walk(
                    PageIterator::spec_new(
                        old(self).spec_header().tables@[j],
                        old(self).spec_pages().len() as int,
                    ),
                    visited,
                ) && final(self).spec_tracks_ok(visited),
            r matches Err(e) ==> (old(self).spec_db_type() == DatabaseType::Plain && final(self).spec_tracks_refusal(
                *old(self),
                e,
            )) || (e is Write && !spec_pages_write_ok(
                final(self).spec_pages(),
                spec_header_block(old(self).spec_header()).len() as int,
                old(self).spec_header().page_size,
            )),
            r matches Err(e) && !(e is Write) ==> final(self).spec_data() == old(self).spec_data(),
    {
        match self.validate_all_track_rows() {
            Ok(()) => {},
            Err(e) => {
                return Err(e);
            },
        }
        let ghost checked = *self;
        let mut head: Vec<u8> = Vec::new();
        self.header.serialize(&mut head);
        let ghost hb = head@;
        let ps = self.header.page_size as usize;
        while head.len() < ps
            invariant
                hb == self.header@.spec_bytes(),
                head@.len() >= hb.len(),
                hb.len() < ps ==> head@.len() <= ps,
                hb.len() >= ps ==> head@.len() == hb.len(),
                head@ == hb + Seq::new((head@.len() - hb.len()) as nat, |i: int| 0u8),
            decreases ps - head@.len(),
        {
            head.push(0u8);
            assert(head@ =~= hb + Seq::new((head@.len() - hb.len()) as nat, |i: int| 0u8));
        }
        assert(head@ =~= spec_header_block(self.header));
        let base = head.len();
        write_bytes_at(&mut self.data, 0, head.as_slice());
        let ghost after_head = self.data@;
        let page_size = self.header.page_size;
        match write_pages(&self.pages, &mut self.data, base, page_size) {
            Ok(()) => {},
            Err(e) => {
                proof {
                    if self.db_type == DatabaseType::Plain {
                        Self::lemma_tracks_checked_kept(*old(self), checked, *self);
                    }
                }
                return Err(e);
            },
        }
        proof {
            if self.db_type == DatabaseType::Plain {
                Self::lemma_tracks_checked_kept(*old(self), checked, *self);
            }
            reveal(Database::spec_flushed);
            if self.header@.spec_wf(self.db_type) && self.spec_pages_fit() {
                lemma_flushed_header(self.header, self.db_type, old(self).spec_data(), self.data@, self.pages@);
            }
        }
        Ok(())
    }

    /// The walk of the first track table and the sizes of its track rows,
    /// checked in `checked`, carry over to `fin`, which has the same pages.
    proof fn lemma_tracks_checked_kept(start: Database, checked: Database, fin: Database)
        requires
            fin.spec_pages() == checked.spec_pages(),
            fin.spec_header() == checked.spec_header(),
            exists|j: int, visited: Seq<PageIndex>|
                Self::spec_first_table(
                    start.spec_header().tables@,
                    PageType::Plain(PlainPageType::Tracks),
                    j,
                ) && checked.spec_walk(
                    PageIterator::spec_new(
                        start.spec_header().tables@[j],
                        start.spec_pages().len() as int,
                    ),
                    visited,
                ) && checked.spec_tracks_ok(visited),
        ensures
            exists|j: int, visited: Seq<PageIndex>|
                Self::spec_first_table(
                    start.spec_header().tables@,
                    PageType::Plain(PlainPageType::Tracks),
                    j,
                ) && fin.spec_walk(
                    PageIterator::spec_new(
                        start.spec_header().tables@[j],
                        start.spec_pages().len() as int,
                    ),
                    visited,
                ) && fin.spec_tracks_ok(visited),
    {
        let tables = start.spec_header().tables@;
        let tracks = PageType::Plain(PlainPageType::Tracks);
        let n = start.spec_pages().len() as int;
        let (j, visited) = choose|j: int, visited: Seq<PageIndex>|
            Self::spec_first_table(tables, tracks, j) && checked.spec_walk(
                PageIterator::spec_new(tables[j], n),
                visited,
            ) && checked.spec_tracks_ok(visited);
        let it0 = PageIterator::spec_new(tables[j], n);
        let its = choose|its: Seq<PageIterator>| {
            &&& its.len() == visited.len() + 1
            &&& its[0] == it0
            &&& its.last().next_page is None
            &&& forall|i: int|
                0 <= i < visited.len() ==> checked.spec_step(its[i], #[trigger] visited[i], its[i + 1])
        };
        assert forall|i: int| 0 <= i < visited.len() implies fin.spec_step(
            its[i],
            #[trigger] visited[i],
            its[i + 1],
        ) by {
            assert(checked.spec_step(its[i], visited[i], its[i + 1]));
        }
        assert(fin.spec_walk(it0, visited));
        assert forall|i: int| 0 <= i < visited.len() implies (fin.spec_page(#[trigger] visited[i]) matches Some(pg) ==> (
            pg.content matches PageContent::Data(d) ==> spec_track_rows_ok(d))) by {
            assert(checked.spec_page(visited[i]) == fin.spec_page(visited[i]));
        }
        assert(fin.spec_tracks_ok(visited));
    }

    /// Flushes all changes and returns the bytes of the database: the bytes
    /// that `flush` leaves, with the pages as decoded by then.
    pub fn close(self) -> (r: Result<Vec<u8>, RekordcrateError>)
        requires
            self.wf(),
        ensures
            r matches Ok(b) ==> self.spec_closed(b@),
            self.spec_db_type() == DatabaseType::Plain && (forall|j: int|
                0 <= j < self.spec_header().tables@.len() ==> self.spec_header().tables@[j].page_type
                    != PageType::Plain(PlainPageType::Tracks)) ==> r == Err::<Vec<u8>, RekordcrateError>(
                RekordcrateError::TableTypeNotPresent(PageType::Plain(PlainPageType::Tracks)),
            ),
            r matches Err(e) ==> exists|fin: Database|
                #![trigger self.spec_decoded_more(fin)]
                self.spec_decoded_more(fin) && ((self.spec_db_type() == DatabaseType::Plain
                    && fin.spec_tracks_refusal(self, e)) || (e is Write && !spec_pages_write_ok(
                    fin.spec_pages(),
                    spec_header_block(self.spec_header()).len() as int,
                    self.spec_header().page_size,
                ))),
    {
        let mut db = self;
        match db.flush() {
            Ok(()) => {
                let ghost pages = db.spec_pages();
                let out = db.into_data();
                assert(self.spec_flushed(out@, pages));
                proof {
                    reveal(Database::spec_closed);
                }
                Ok(out)
            },
            Err(e) => {
                assert(self.spec_decoded_more(db));
                Err(e)
            },
        }
    }

    /// `fin` is the database with more of its pages decoded: the same header,
    /// kind and pages, each page decoded before unchanged.
    pub open spec fn spec_decoded_more(&self, fin: Database) -> bool {
        &&& fin.spec_header() == self.spec_header()
        &&& fin.spec_db_type() == self.spec_db_type()
        &&& fin.spec_pages().len() == self.spec_pages().len()
        &&& forall|i: int|
            0 <= i < self.spec_pages().len() && self.spec_pages()[i] is Loaded ==> #[trigger] fin.spec_pages()[i]
                == self.spec_pages()[i]
    }

    /// One step of a page iterator: from `it` the page `p` is visited, which is
    /// decoded, and the iterator moves on to `next`.
    pub open spec fn spec_step(&self, it: PageIterator, p: PageIndex, next: PageIterator) -> bool {
        &&& it.next_page == Some(p)
        &&& it.pages_offset <= p.0
        &&& p.0 - it.pages_offset < it.remaining
        &&& self.spec_page(p) matches Some(page)
        &&& next == PageIterator {
            next_page: if p == it.last_page {
                None
            } else {
                Some(page.header.next_page)
            },
            last_page: it.last_page,
            pages_offset: (p.0 + 1) as u64,
            remaining: (it.remaining - (p.0 - it.pages_offset) - 1) as u64,
        }
    }

    /// The walk from `it` visits the decoded pages `visited`, one step after
    /// another, and ends after the last of them.
    pub open spec fn spec_walk(&self, it: PageIterator, visited: Seq<PageIndex>) -> bool {
        exists|its: Seq<PageIterator>| {
            &&& its.len() == visited.len() + 1
            &&& its[0] == it
            &&& its.last().next_page is None
            &&& forall|i: int|
                0 <= i < visited.len() ==> self.spec_step(its[i], #[trigger] visited[i], its[i + 1])
        }
    }

    /// A walk visits the pages of a chain in order: it starts at the
    /// iterator's next page, each page visited after another is that page's
    /// `next_page` and has a larger index, and the last page visited is the
    /// table's last page.
    pub proof fn lemma_walk_in_order(&self, it: PageIterator, visited: Seq<PageIndex>)
        requires
            self.spec_walk(it, visited),
        ensures
            visited.len() > 0 ==> it.next_page == Some(visited[0]),
            visited.len() == 0 ==> it.next_page is None,
            forall|i: int|
                0 <= i < visited.len() - 1 ==> {
                    &&& self.spec_page(visited[i]) matches Some(pg)
                    &&& pg.header.next_page == visited[i + 1]
                    &&& visited[i] != it.last_page
                    &&& (#[trigger] visited[i]).0 < visited[i + 1].0
                },
            visited.len() > 0 ==> visited.last() == it.last_page,
            forall|i: int, k: int| 0 <= i < k < visited.len() ==> visited[i].0 < visited[k].0,
    {
        let its = choose|its: Seq<PageIterator>| {
            &&& its.len() == visited.len() + 1
            &&& its[0] == it
            &&& its.last().next_page is None
            &&& forall|i: int|
                0 <= i < visited.len() ==> self.spec_step(its[i], #[trigger] visited[i], its[i + 1])
        };
        let n = visited.len() as int;
        if n > 0 {
            assert(self.spec_step(its[0], visited[0], its[1]));
            assert(self.spec_step(its[n - 1], visited[n - 1], its[n]));
        }
        assert forall|i: int| 0 <= i < n - 1 implies {
            &&& self.spec_page(visited[i]) matches Some(pg)
            &&& pg.header.next_page == visited[i + 1]
            &&& visited[i] != it.last_page
            &&& (#[trigger] visited[i]).0 < visited[i + 1].0
        } by {
            Self::lemma_walk_link(*self, its, visited, i);
        }
        if n > 0 {
            Self::lemma_walk_last_page(*self, its, visited, n - 1);
        }
        assert forall|i: int, k: int| 0 <= i < k < n implies visited[i].0 < visited[k].0 by {
            Self::lemma_walk_increasing(*self, its, visited, i, k);
        }
    }

    /// A row that `add_row` stored is reached along its table's chain: where
    /// the walk of the table from its first page visited `visited`, decoded
    /// pages linked by increasing index up to the table's last page, and the
    /// row went into a decoded page past that one, the walk of the table in
    /// `fin` visits the same pages and then the page that holds the row,
    /// where it ends.
    pub proof fn lemma_added_row_reached(
        db: Database,
        fin: Database,
        row: Row,
        j: int,
        rr: RowRef,
        visited: Seq<PageIndex>,
    )
        requires
            Self::spec_add_row_outcome(db, fin, row, j, Ok::<RowRef, RekordcrateError>(rr)),
            0 <= j < db.spec_header().tables@.len(),
            db.spec_walk(
                PageIterator::spec_new(db.spec_header().tables@[j], db.spec_pages().len() as int),
                visited,
            ),
            db.spec_header().tables@[j].last_page.0 < rr.page_index.0,
            fin.spec_page(rr.page_index) is Some,
        ensures
            fin.spec_walk(
                PageIterator::spec_new(fin.spec_header().tables@[j], fin.spec_pages().len() as int),
                visited.push(rr.page_index),
            ),
    {
        let table = db.spec_header().tables@[j];
        let last = table.last_page;
        assert(rr.page_index != last);
        Self::lemma_walk_extended(db, fin, table, fin.spec_header().tables@[j], rr.page_index, visited);
    }

    /// The walk of a table extended by one page: where the walk of `table` in
    /// `db` visited `visited` and `fin` keeps the decoded pages of `db` but
    /// for the table's last page, which now points at `added`, a decoded page
    /// past it, the walk of the table with `added` as its last page visits
    /// `visited` and then `added`.
    #[verifier::rlimit(100)]
    #[verifier::spinoff_prover]
    proof fn lemma_walk_extended(
        db: Database,
        fin: Database,
        table: Table,
        table2: Table,
        added: PageIndex,
        visited: Seq<PageIndex>,
    )
        requires
            db.spec_walk(PageIterator::spec_new(table, db.spec_pages().len() as int), visited),
            table2 == (Table { last_page: added, ..table }),
            table.last_page.0 < added.0,
            fin.spec_page(added) is Some,
            spec_relinked_to(fin.spec_page(table.last_page), added),
            Self::spec_loaded_kept_but(db, fin, table.last_page, added),
        ensures
            fin.spec_walk(PageIterator::spec_new(table2, fin.spec_pages().len() as int), visited.push(added)),
    {
        let last = table.last_page;
        let it = PageIterator::spec_new(table, db.spec_pages().len() as int);
        let len0 = db.spec_pages().len() as int;
        let len1 = fin.spec_pages().len() as int;
        let d = len1 - len0;
        let its = choose|its: Seq<PageIterator>| {
            &&& its.len() == visited.len() + 1
            &&& its[0] == it
            &&& its.last().next_page is None
            &&& forall|i: int|
                0 <= i < visited.len() ==> db.spec_step(its[i], #[trigger] visited[i], its[i + 1])
        };
        let n = visited.len() as int;
        assert(n > 0);
        assert(db.spec_pages().len() == db.pages.len() && fin.spec_pages().len() == fin.pages.len());
        Self::lemma_walk_passed(db, its, visited, n, len0);
        assert(db.spec_step(its[n - 1], visited[n - 1], its[n]));
        Self::lemma_walk_passed(db, its, visited, n - 1, len0);
        assert(visited[n - 1] == last);
        let its2 = Seq::new(
            (n + 2) as nat,
            |i: int|
                if i < n {
                    spec_shifted(its[i], added, d)
                } else if i == n {
                    PageIterator {
                        next_page: Some(added),
                        last_page: added,
                        pages_offset: its[n].pages_offset,
                        remaining: (its[n].remaining + d) as u64,
                    }
                } else {
                    PageIterator {
                        next_page: None,
                        last_page: added,
                        pages_offset: (added.0 + 1) as u64,
                        remaining: (len1 - added.0) as u64,
                    }
                },
        );
        let v2 = visited.push(added);
        assert(its2[0] == PageIterator::spec_new(table2, len1));
        assert forall|i: int| 0 <= i < v2.len() implies fin.spec_step(its2[i], #[trigger] v2[i], its2[i + 1]) by {
            if i < n {
                Self::lemma_walk_passed(db, its, visited, i, len0);
                assert(db.spec_step(its[i], visited[i], its[i + 1]));
                let k = visited[i].0 - 1;
                assert(db.spec_pages()[k] is Loaded);
                if i < n - 1 {
                    Self::lemma_walk_increasing(db, its, visited, i, n - 1);
                    assert(fin.spec_pages()[k] == db.spec_pages()[k]);
                    assert(its2[i + 1] == spec_shifted(its[i + 1], added, d));
                    Self::lemma_step_shifted(db, fin, its[i], visited[i], its[i + 1], added, d);
                } else {
                    Self::lemma_step_relinked(db, fin, its[i], visited[i], its[i + 1], added, d);
                }
            }
        }
        assert(its2.len() == v2.len() + 1);
        assert(its2.last().next_page is None);
        assert(fin.spec_walk(PageIterator::spec_new(table2, len1), v2));
    }

    /// A step of a walk before the table's last page is the same step for the
    /// table with `added` as its last page, with `d` more pages left, where
    /// the page stepped on is kept.
    proof fn lemma_step_shifted(
        db: Database,
        fin: Database,
        a: PageIterator,
        p: PageIndex,
        b: PageIterator,
        added: PageIndex,
        d: int,
    )
        requires
            db.spec_step(a, p, b),
            p != a.last_page,
            p != added,
            fin.spec_page(p) == db.spec_page(p),
            0 <= d,
            a.remaining + d <= u64::MAX,
        ensures
            fin.spec_step(spec_shifted(a, added, d), p, spec_shifted(b, added, d)),
    {
    }

    /// The step of a walk onto the table's last page, which now points at
    /// `added`, goes on to `added` for the table with `added` as its last
    /// page, with `d` more pages left.
    proof fn lemma_step_relinked(
        db: Database,
        fin: Database,
        a: PageIterator,
        p: PageIndex,
        b: PageIterator,
        added: PageIndex,
        d: int,
    )
        requires
            db.spec_step(a, p, b),
            p == a.last_page,
            p != added,
            spec_relinked_to(fin.spec_page(p), added),
            0 <= d,
            a.remaining + d <= u64::MAX,
        ensures
            fin.spec_step(
                spec_shifted(a, added, d),
                p,
                PageIterator {
                    next_page: Some(added),
                    last_page: added,
                    pages_offset: b.pages_offset,
                    remaining: (b.remaining + d) as u64,
                },
            ),
    {
    }

    /// Along the steps of a walk the iterator keeps its last page, and the
    /// pages passed and those left add up to the pages it started with.
    proof fn lemma_walk_passed(db: Database, its: Seq<PageIterator>, visited: Seq<PageIndex>, m: int, total: int)
        requires
            its.len() == visited.len() + 1,
            0 <= m <= visited.len(),
            its[0].pages_offset - 1 + its[0].remaining == total,
            its[0].pages_offset >= 1,
            forall|i: int| 0 <= i < visited.len() ==> db.spec_step(its[i], #[trigger] visited[i], its[i + 1]),
        ensures
            its[m].pages_offset - 1 + its[m].remaining == total,
            its[m].pages_offset >= 1,
            its[m].last_page == its[0].last_page,
        decreases m,
    {
        if m > 0 {
            Self::lemma_walk_passed(db, its, visited, m - 1, total);
            assert(db.spec_step(its[m - 1], visited[m - 1], its[m]));
        }
    }

    /// One link of a walk: the page visited at `i` points at the next one,
    /// which has a larger index, and is not the table's last page.
    proof fn lemma_walk_link(db: Database, its: Seq<PageIterator>, visited: Seq<PageIndex>, i: int)
        requires
            its.len() == visited.len() + 1,
            forall|x: int|
                0 <= x < visited.len() ==> db.spec_step(its[x], #[trigger] visited[x], its[x + 1]),
            0 <= i < visited.len() - 1,
        ensures
            db.spec_page(visited[i]) matches Some(pg) && pg.header.next_page == visited[i + 1],
            visited[i] != its[0].last_page,
            visited[i].0 < visited[i + 1].0,
    {
        assert(db.spec_step(its[i], visited[i], its[i + 1]));
        assert(db.spec_step(its[i + 1], visited[i + 1], its[i + 2]));
        Self::lemma_walk_last_page(db, its, visited, i);
    }

    /// Along the steps of a walk the iterator keeps its last page.
    proof fn lemma_walk_last_page(db: Database, its: Seq<PageIterator>, visited: Seq<PageIndex>, m: int)
        requires
            its.len() == visited.len() + 1,
            forall|i: int|
                0 <= i < visited.len() ==> db.spec_step(its[i], #[trigger] visited[i], its[i + 1]),
            0 <= m < its.len(),
        ensures
            its[m].last_page == its[0].last_page,
        decreases m,
    {
        if m > 0 {
            Self::lemma_walk_last_page(db, its, visited, m - 1);
            assert(db.spec_step(its[m - 1], visited[m - 1], its[m]));
        }
    }

    /// Along the steps of a walk the visited page indices grow.
    proof fn lemma_walk_increasing(db: Database, its: Seq<PageIterator>, visited: Seq<PageIndex>, i: int, k: int)
        requires
            its.len() == visited.len() + 1,
            forall|x: int|
                0 <= x < visited.len() ==> db.spec_step(its[x], #[trigger] visited[x], its[x + 1]),
            0 <= i < k < visited.len(),
        ensures
            visited[i].0 < visited[k].0,
        decreases k - i,
    {
        assert(db.spec_step(its[k - 1], visited[k - 1], its[k]));
        assert(db.spec_step(its[k], visited[k], its[k + 1]));
        if k - 1 > i {
            Self::lemma_walk_increasing(db, its, visited, i, k - 1);
        }
    }

    /// The track rows of the data pages among `visited` take at least
    /// `MIN_TRACK_ALLOCATED_SIZE` heap bytes once rounded up to four, and at
    /// most 65532.
    pub open spec fn spec_tracks_ok(&self, visited: Seq<PageIndex>) -> bool {
        forall|i: int|
            0 <= i < visited.len() ==> (self.spec_page(#[trigger] visited[i]) matches Some(pg) ==> (
            pg.content matches PageContent::Data(d) ==> spec_track_rows_ok(d)))
    }

    /// From `it`, the page `p` cannot be visited, which fails with `e`: it
    /// lies before the pages still to visit, beyond them, or is not decoded
    /// and does not decode.
    pub open spec fn spec_step_error(&self, it: PageIterator, p: PageIndex, e: RekordcrateError) -> bool {
        ||| p.0 < it.pages_offset && e == RekordcrateError::PageOrderViolation(p)
        ||| it.pages_offset <= p.0 && p.0 - it.pages_offset >= it.remaining && e
            == RekordcrateError::PageNotPresent(p)
        ||| it.pages_offset <= p.0 && p.0 - it.pages_offset < it.remaining && self.spec_page(p) is None
            && !spec_page_readable(self.spec_data(), p, self.spec_header().page_size, self.spec_db_type())
            && e == RekordcrateError::PageNotReadable(p)
    }

    /// The walk from `it` breaks off with `e`: after some steps it reaches a
    /// page that cannot be visited.
    pub open spec fn spec_walk_fails(&self, it: PageIterator, e: RekordcrateError) -> bool {
        exists|its: Seq<PageIterator>, visited: Seq<PageIndex>| {
            &&& its.len() == visited.len() + 1
            &&& its[0] == it
            &&& forall|i: int|
                0 <= i < visited.len() ==> self.spec_step(its[i], #[trigger] visited[i], its[i + 1])
            &&& its.last().next_page matches Some(p) && self.spec_step_error(its.last(), p, e)
        }
    }

    /// Checking the track rows of the plain database `old_db`, now `self`,
    /// fails with `e`: it has no track table, the walk of its first track
    /// table breaks off, or a decoded data page holds a track row of a size
    /// that is not allowed.
    pub open spec fn spec_tracks_refusal(&self, old_db: Database, e: RekordcrateError) -> bool {
        let tables = old_db.spec_header().tables@;
        let tracks = PageType::Plain(PlainPageType::Tracks);
        ||| e == RekordcrateError::TableTypeNotPresent(tracks) && forall|j: int|
            0 <= j < tables.len() ==> tables[j].page_type != tracks
        ||| exists|j: int|
            Self::spec_first_table(tables, tracks, j) && self.spec_walk_fails(
                PageIterator::spec_new(tables[j], old_db.spec_pages().len() as int),
                e,
            )
        ||| spec_track_error(e) && exists|idx: PageIndex|
            #![trigger self.spec_page(idx)]
            self.spec_page(idx) matches Some(pg) && pg.content matches PageContent::Data(d)
                && !spec_track_rows_ok(d)
    }

    /// `refs` lists the rows of the decoded page `p` by increasing heap offset:
    /// every row of a data page once, none of an index page.
    pub open spec fn spec_page_listed(&self, p: PageIndex, refs: Seq<RowRef>) -> bool {
        &&& self.spec_page(p) matches Some(page)
        &&& match page.content {
            PageContent::Data(d) => {
                &&& refs.len() == d.rows@.dom().len()
                &&& forall|i: int| 0 <= i < refs.len() ==> (#[trigger] refs[i]).page_index == p
                    && d.rows@.contains_key(refs[i].row_offset)
                &&& forall|i: int, j: int| 0 <= i < j < refs.len() ==> refs[i].row_offset < refs[j].row_offset
                &&& forall|k: u16| #[trigger] d.rows@.contains_key(k) ==> exists|i: int|
                    0 <= i < refs.len() && refs[i].row_offset == k
            },
            PageContent::Index(_) => refs.len() == 0,
        }
    }

    /// `refs` lists, page by page in the order of the walk from `it`, the rows
    /// of the pages visited, each page's rows by increasing heap offset, and the
    /// walk ends after the last of them.
    pub open spec fn spec_walk_listed(&self, it: PageIterator, refs: Seq<RowRef>) -> bool {
        exists|its: Seq<PageIterator>, visited: Seq<PageIndex>, segs: Seq<Seq<RowRef>>| {
            &&& its.len() == visited.len() + 1
            &&& segs.len() == visited.len()
            &&& its[0] == it
            &&& its.last().next_page is None
            &&& forall|i: int|
                0 <= i < visited.len() ==> self.spec_step(its[i], #[trigger] visited[i], its[i + 1])
                    && self.spec_page_listed(visited[i], segs[i])
            &&& refs == concat_refs(segs)
        }
    }

    /// A row is stored at `rr`: the page `rr.page_index` is a decoded data page
    /// with a row at heap offset `rr.row_offset`.
    pub open spec fn spec_row_present(&self, rr: RowRef) -> bool {
        &&& self.spec_page(rr.page_index) matches Some(p)
        &&& p.content matches PageContent::Data(d)
        &&& d.rows@.contains_key(rr.row_offset)
    }

    /// The row stored at `rr`, where there is one.
    pub fn row(&self, rr: RowRef) -> (r: Option<&Row>)
        ensures
            self.spec_row_present(rr) <==> r is Some,
            r matches Some(row) ==> self.spec_row_at(rr, *row),
    {
        proof {
            crate::pdb::page::lemma_offset_keys_hold();
        }
        match self.page(rr.page_index) {
            Some(page) => match &page.content {
                PageContent::Data(d) => d.rows.get(&rr.row_offset),
                PageContent::Index(_) => None,
            },
            None => None,
        }
    }

    /// Decodes the pages of the first table of type `page_type` and lists the
    /// rows of its data pages, page by page in chain order and by increasing
    /// offset within a page. Fails as `iter_pages` and `PageIterator::next` do.
    pub fn iter_rows(&mut self, page_type: PageType) -> (r: Result<Vec<RowRef>, RekordcrateError>)
        requires
            old(self).wf(),
        ensures
            final(self).wf(),
            final(self).spec_header() == old(self).spec_header(),
            final(self).spec_data() == old(self).spec_data(),
            (forall|j: int|
                0 <= j < old(self).spec_header().tables@.len() ==> old(self).spec_header().tables@[j].page_type
                    != page_type) ==> r == Err::<Vec<RowRef>, RekordcrateError>(
                RekordcrateError::TableTypeNotPresent(page_type),
            ),
            r matches Ok(refs) ==> exists|j: int|
                Self::spec_first_table(old(self).spec_header().tables@, page_type, j)
                    && final(self).spec_walk_listed(
                    PageIterator::spec_new(
                        old(self).spec_header().tables@[j],
                        old(self).spec_pages().len() as int,
                    ),
                    refs@,
                ),
            r matches Ok(refs) ==> forall|k: int| 0 <= k < refs@.len() ==> final(self).spec_row_present(
                #[trigger] refs@[k],
            ),
            r matches Err(e) ==> (e == RekordcrateError::TableTypeNotPresent(page_type) && forall|j: int|
                0 <= j < old(self).spec_header().tables@.len() ==> old(self).spec_header().tables@[j].page_type
                    != page_type) || exists|j: int|
                Self::spec_first_table(old(self).spec_header().tables@, page_type, j)
                    && final(self).spec_walk_fails(
                    PageIterator::spec_new(
                        old(self).spec_header().tables@[j],
                        old(self).spec_pages().len() as int,
                    ),
                    e,
                ),
    {
        let mut it = match self.iter_pages(page_type) {
            Ok(it) => it,
            Err(e) => {
                return Err(e);
            },
        };
        let ghost it0 = it;
        proof {
            let tables = old(self).spec_header().tables@;
            let j = choose|j: int|
                0 <= j < tables.len() && tables[j].page_type == page_type && (forall|k: int|
                    0 <= k < j ==> tables[k].page_type != page_type) && it == PageIterator::spec_new(
                    tables[j],
                    old(self).spec_pages().len() as int,
                );
            assert(Self::spec_first_table(tables, page_type, j));
        }
        let ghost mut its: Seq<PageIterator> = seq![it];
        let ghost mut visited: Seq<PageIndex> = Seq::empty();
        let ghost mut segs: Seq<Seq<RowRef>> = Seq::empty();
        let mut out: Vec<RowRef> = Vec::new();
        loop
            invariant
                self.wf(),
                self.spec_header() == old(self).spec_header(),
                self.spec_data() == old(self).spec_data(),
                self.spec_db_type() == old(self).spec_db_type(),
                self.spec_pages().len() == old(self).spec_pages().len(),
                it.pages_offset >= 1,
                it.pages_offset - 1 + it.remaining <= self.spec_pages().len(),
                forall|k: int| 0 <= k < out@.len() ==> self.spec_row_present(#[trigger] out@[k]),
                exists|j: int|
                    Self::spec_first_table(old(self).spec_header().tables@, page_type, j) && it0
                        == PageIterator::spec_new(
                        old(self).spec_header().tables@[j],
                        old(self).spec_pages().len() as int,
                    ),
                its.len() == visited.len() + 1,
                segs.len() == visited.len(),
                its[0] == it0,
                its.last() == it,
                forall|i: int|
                    0 <= i < visited.len() ==> self.spec_step(its[i], #[trigger] visited[i], its[i + 1])
                        && self.spec_page_listed(visited[i], segs[i]),
                out@ == concat_refs(segs),
            decreases it.remaining,
        {
            let ghost before = *self;
            let ghost it_before = it;
            let p = match it.next(self) {
                Ok(Some(p)) => p,
                Ok(None) => {
                    assert(self.spec_walk_listed(it0, out@));
                    return Ok(out);
                },
                Err(e) => {
                    proof {
                        assert(self.spec_pages() == before.spec_pages());
                        assert forall|i: int| 0 <= i < visited.len() implies self.spec_step(
                            its[i],
                            #[trigger] visited[i],
                            its[i + 1],
                        ) by {
                            assert(before.spec_step(its[i], visited[i], its[i + 1]));
                        }
                        let q = it_before.next_page->0;
                        assert(self.spec_step_error(its.last(), q, e));
                        assert(self.spec_walk_fails(it0, e));
                    }
                    return Err(e);
                },
            };
            proof {
                assert forall|i: int| 0 <= i < visited.len() implies #[trigger] self.spec_page(visited[i])
                    == before.spec_page(visited[i]) by {
                    let q = visited[i];
                    assert(before.spec_page(q) is Some);
                    assert(before.spec_pages()[q.0 - 1] is Loaded);
                }
                assert forall|i: int| 0 <= i < visited.len() implies self.spec_step(
                    its[i],
                    #[trigger] visited[i],
                    its[i + 1],
                ) && self.spec_page_listed(visited[i], segs[i]) by {
                    assert(before.spec_step(its[i], visited[i], its[i + 1]));
                    assert(before.spec_page_listed(visited[i], segs[i]));
                    assert(self.spec_page(visited[i]) == before.spec_page(visited[i]));
                }
            }
            assert forall|k: int| 0 <= k < out@.len() implies self.spec_row_present(#[trigger] out@[k]) by {
                assert(before.spec_row_present(out@[k]));
                assert(before.spec_pages()[out@[k].page_index.0 - 1] is Loaded);
            }
            let ghost out0 = out@;
            let page = match self.page(p) {
                Some(page) => page,
                None => {
                    return Err(RekordcrateError::PageNotPresent(p));
                },
            };
            let ghost seg: Seq<RowRef>;
            if let PageContent::Data(d) = &page.content {
                proof {
                    crate::pdb::page::lemma_offset_keys_hold();
                }
                for (k, _) in iter: d.rows.iter()
                    invariant
                        self.spec_page(p) matches Some(pg) && pg.content == PageContent::Data(*d),
                        crate::pdb::page::offset_keys_ordered(),
                        iter.seq() == vstd::std_specs::btree::spec_btree_map_iter(&d.rows).remaining(),
                        forall|j: int| 0 <= j < out@.len() ==> self.spec_row_present(#[trigger] out@[j]),
                        out@ == out0 + Seq::new(
                            iter.index() as nat,
                            |i: int| RowRef { page_index: p, row_offset: *iter.seq()[i].0 },
                        ),
                {
                    proof {
                        crate::pdb::page::lemma_iter_entry_in_map(&d.rows, iter.index());
                    }
                    out.push(RowRef { page_index: p, row_offset: *k });
                    proof {
                        assert(out@ =~= out0 + Seq::new(
                            (iter.index() + 1) as nat,
                            |i: int| RowRef { page_index: p, row_offset: *iter.seq()[i].0 },
                        ));
                    }
                }
                proof {
                    seg = out@.subrange(out0.len() as int, out@.len() as int);
                    crate::pdb::page::lemma_iter_sorted(&d.rows);
                    assert(out@ =~= out0 + seg);
                    let v = crate::pdb::page::deref_entries(
                        vstd::std_specs::btree::spec_btree_map_iter(&d.rows).remaining(),
                    );
                    assert(seg.len() == v.len());
                    assert forall|i: int| 0 <= i < seg.len() implies v[i].0 == (#[trigger] seg[i]).row_offset by {}
                    assert forall|k: u16| #[trigger] d.rows@.contains_key(k) implies exists|i: int|
                        0 <= i < seg.len() && seg[i].row_offset == k by {
                        let i = choose|i: int| 0 <= i < v.len() && v[i].0 == k;
                        assert(seg[i].row_offset == v[i].0);
                    }
                    assert forall|i: int, j: int| 0 <= i < j < seg.len() implies seg[i].row_offset < seg[j].row_offset by {
                        assert(v[i].0 < v[j].0);
                        assert(seg[i].row_offset == v[i].0);
                        assert(seg[j].row_offset == v[j].0);
                    }
                    assert forall|i: int| 0 <= i < seg.len() implies (#[trigger] seg[i]).page_index == p
                        && d.rows@.contains_key(seg[i].row_offset) by {
                        assert(d.rows@.contains_key(v[i].0));
                    }
                    assert(self.spec_page_listed(p, seg));
                }
            } else {
                proof {
                    seg = Seq::empty();
                    assert(out@ =~= out0 + seg);
                }
            }
            proof {
                let old_visited = visited;
                let old_its = its;
                let old_segs = segs;
                assert(self.spec_step(it_before, p, it));
                visited = visited.push(p);
                its = its.push(it);
                segs = segs.push(seg);
                assert(segs.drop_last() =~= old_segs);
                assert(out@ == concat_refs(segs));
                assert forall|i: int| 0 <= i < visited.len() implies self.spec_step(
                    its[i],
                    #[trigger] visited[i],
                    its[i + 1],
                ) && self.spec_page_listed(visited[i], segs[i]) by {
                    if i < old_visited.len() {
                        assert(visited[i] == old_visited[i]);
                        assert(its[i] == old_its[i] && its[i + 1] == old_its[i + 1]);
                        assert(segs[i] == old_segs[i]);
                    }
                }
            }
        }
    }
}

} // verus!
