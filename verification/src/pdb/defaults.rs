//! Default rows for colors, columns and menus: what Rekordbox inserts when it
//! creates a new export without any configuration.

use crate::codec::Codec;
use crate::pdb::io::{Database, RowRef, MIN_TRACK_ALLOCATED_SIZE};
use crate::pdb::{PageType, PlainPageType, Table};
use crate::pdb::rows::{Color, ColumnEntry, Menu, MenuVisibility, PlainRow, Row};
use crate::pdb::string::{lemma_short_new, lemma_writable_len, DeviceSQLString, DeviceSQLStringModel, StringError};
use crate::util::{ColorIndex, RekordcrateError};
use vstd::prelude::*;

verus! {

/// The database has no table of the plain page type `t`.
pub open spec fn spec_no_table(db: Database, t: PlainPageType) -> bool {
    forall|j: int|
        0 <= j < db.spec_header().tables@.len() ==> db.spec_header().tables@[j].page_type != PageType::Plain(t)
}

/// `b` has the tables of `a`, each of the same page type.
pub open spec fn spec_same_table_types(a: Database, b: Database) -> bool {
    &&& b.spec_header().tables@.len() == a.spec_header().tables@.len()
    &&& forall|k: int|
        0 <= k < a.spec_header().tables@.len() ==> #[trigger] b.spec_header().tables@[k].page_type
            == a.spec_header().tables@[k].page_type
}

/// Where some table has page type `t`, the first one is at some position.
proof fn lemma_first_table(tables: Seq<Table>, t: PageType, k: int)
    requires
        0 <= k < tables.len(),
        tables[k].page_type == t,
    ensures
        exists|j: int| Database::spec_first_table(tables, t, j),
    decreases k,
{
    if exists|i: int| 0 <= i < k && tables[i].page_type == t {
        let i = choose|i: int| 0 <= i < k && tables[i].page_type == t;
        lemma_first_table(tables, t, i);
    } else {
        assert(Database::spec_first_table(tables, t, k));
    }
}

/// An `add_row` of a known, non-track row into a database with a table of
/// its type keeps the table types, or refuses with a page error.
proof fn lemma_add_row_step(before: Database, after: Database, row: Row, r: Result<RowRef, RekordcrateError>, k: int)
    requires
        row.spec_page_type() matches Some(t) && 0 <= k < before.spec_header().tables@.len()
            && before.spec_header().tables@[k].page_type == t,
        !(row matches Row::Plain(PlainRow::Track(_))),
        forall|j: int|
            #![trigger Database::spec_first_table(before.spec_header().tables@, row.spec_page_type()->0, j)]
            row.spec_page_type() is Some && !(row matches Row::Plain(PlainRow::Track(t))
                && crate::pdb::page::round_up4(t.spec_heap_bytes()) < MIN_TRACK_ALLOCATED_SIZE)
                && Database::spec_first_table(before.spec_header().tables@, row.spec_page_type()->0, j)
                ==> Database::spec_add_row_outcome(before, after, row, j, r),
    ensures
        r is Ok ==> spec_same_table_types(before, after),
        exists|j: int|
            Database::spec_first_table(before.spec_header().tables@, row.spec_page_type()->0, j)
                && #[trigger] Database::spec_add_row_outcome(before, after, row, j, r),
{
    let t = row.spec_page_type()->0;
    lemma_first_table(before.spec_header().tables@, t, k);
    let j = choose|j: int| Database::spec_first_table(before.spec_header().tables@, t, j);
    assert(Database::spec_add_row_outcome(before, after, row, j, r));
}

/// Storing the default rows of table type `t` failed with `e` at place `k`:
/// the rows before it were stored one after another from `start` (see
/// `spec_default_prefix`), and `add_row` of the default row at place `k` in
/// the database reached gave `fin` and `e`, as `Database::spec_add_row_outcome`
/// allows.
pub open spec fn spec_default_refused(start: Database, fin: Database, t: PlainPageType, n: int, e: RekordcrateError) -> bool {
    exists|dbs: Seq<Database>, refs: Seq<RowRef>, k: int|
        #![trigger spec_default_prefix(start, t, k, dbs, refs)]
        0 <= k < n && spec_default_prefix(start, t, k, dbs, refs) && spec_default_fail(dbs[k], fin, t, k, e)
}

/// Storing the default row of table type `t` at place `k` in `before` gave
/// `after` and the error `e`, as `Database::spec_add_row_outcome` allows for
/// the first table of type `t`.
pub open spec fn spec_default_fail(before: Database, after: Database, t: PlainPageType, k: int, e: RekordcrateError) -> bool {
    exists|row: Row, j: int|
        #![trigger Database::spec_add_row_outcome(before, after, row, j, Err::<RowRef, RekordcrateError>(e))]
        spec_default_row_at(t, row, k) && Database::spec_first_table(before.spec_header().tables@, PageType::Plain(t), j)
            && Database::spec_add_row_outcome(before, after, row, j, Err::<RowRef, RekordcrateError>(e))
}

/// The first `k` default rows of table type `t` were stored one after
/// another from `start`: `dbs` are the database before and after each
/// `add_row`, and `refs[i]` is where the row at place `i` went.
pub open spec fn spec_default_prefix(start: Database, t: PlainPageType, k: int, dbs: Seq<Database>, refs: Seq<RowRef>) -> bool {
    &&& dbs.len() == k + 1
    &&& refs.len() == k
    &&& dbs[0] == start
    &&& forall|i: int| 0 <= i < k ==> #[trigger] spec_default_step(dbs[i], dbs[i + 1], t, i, refs[i])
}

/// The default rows of table type `t` were stored one after another: `dbs`
/// are the database before and after each `add_row`, and `refs[k]` is where
/// the default row at place `k` went, as `Database::spec_add_row_outcome`
/// says for the first table of type `t`.
pub open spec fn spec_default_steps(
    start: Database,
    fin: Database,
    t: PlainPageType,
    n: int,
    dbs: Seq<Database>,
    refs: Seq<RowRef>,
) -> bool {
    &&& spec_default_prefix(start, t, n, dbs, refs)
    &&& dbs[n] == fin
}

/// Storing the default row of table type `t` at place `k` in `before` gave
/// `after`, with the row at `rr`, as `Database::spec_add_row_outcome` says for
/// the first table of type `t`.
pub open spec fn spec_default_step(before: Database, after: Database, t: PlainPageType, k: int, rr: RowRef) -> bool {
    exists|row: Row, j: int|
        #![trigger Database::spec_add_row_outcome(before, after, row, j, Ok::<RowRef, RekordcrateError>(rr))]
        spec_default_row_at(t, row, k) && Database::spec_first_table(before.spec_header().tables@, PageType::Plain(t), j)
            && Database::spec_add_row_outcome(before, after, row, j, Ok::<RowRef, RekordcrateError>(rr))
}

/// `row` is the default row of table type `t` at place `k`.
pub open spec fn spec_default_row_at(t: PlainPageType, row: Row, k: int) -> bool {
    match t {
        PlainPageType::Colors => spec_color_row_at(row, k),
        PlainPageType::Columns => spec_column_row_at(row, k),
        PlainPageType::Menu => row == spec_menu_row(spec_default_menus()[k]),
        _ => false,
    }
}

/// `row` is the default color row at place `k`.
pub open spec fn spec_color_row_at(row: Row, k: int) -> bool {
    let e = spec_default_colors()[k];
    row matches Row::Plain(PlainRow::Color(c)) && c.unknown1 == 0 && c.unknown2 == e.0 && c.color == e.1
        && c.unknown3 == 0 && DeviceSQLStringModel::spec_new(e.2) == Ok::<DeviceSQLStringModel, StringError>(
        c.name@,
    )
}

/// `row` is the default column row at place `k`.
pub open spec fn spec_column_row_at(row: Row, k: int) -> bool {
    let e = spec_default_columns()[k];
    row matches Row::Plain(PlainRow::ColumnEntry(c)) && c.id == e.0 && c.unknown0 == e.1
        && DeviceSQLStringModel::spec_new(e.2) == Ok::<DeviceSQLStringModel, StringError>(c.column_name@)
}

/// Encodes `name` as a string that can be stored in a row.
fn row_string(name: &str) -> (r: Result<DeviceSQLString, RekordcrateError>)
    ensures
        r matches Ok(s) ==> s@.spec_writable() && s@.spec_bytes().len() <= u16::MAX
            && DeviceSQLStringModel::spec_new(name@) == Ok::<DeviceSQLStringModel, StringError>(s@),
        match DeviceSQLStringModel::spec_new(name@) {
            Ok(m) => if m.spec_writable() {
                r is Ok
            } else {
                r == Err::<DeviceSQLString, RekordcrateError>(
                    RekordcrateError::IntegrityError("string too long for a row"),
                )
            },
            Err(e) => r == Err::<DeviceSQLString, RekordcrateError>(RekordcrateError::String(e)),
        },
{
    let s = match DeviceSQLString::new(name.to_owned()) {
        Ok(s) => s,
        Err(e) => {
            return Err(RekordcrateError::String(e));
        },
    };
    if !s.is_writable() {
        return Err(RekordcrateError::IntegrityError("string too long for a row"));
    }
    proof {
        lemma_writable_len(s@);
    }
    Ok(s)
}

/// The default colors: the ID, the color and the name of each.
pub open spec fn spec_default_colors() -> Seq<(u8, ColorIndex, Seq<char>)> {
    seq![
        (1u8, ColorIndex::Pink, "Pink"@),
        (2, ColorIndex::Red, "Red"@),
        (3, ColorIndex::Orange, "Orange"@),
        (4, ColorIndex::Yellow, "Yellow"@),
        (5, ColorIndex::Green, "Green"@),
        (6, ColorIndex::Aqua, "Aqua"@),
        (7, ColorIndex::Blue, "Blue"@),
        (8, ColorIndex::Purple, "Purple"@),
    ]
}

/// The default color at place `j` is stored in `db`: a color row with its ID
/// and color, zero unknown fields, and its name encoded as a string.
pub open spec fn spec_color_stored(db: Database, j: int) -> bool {
    let e = spec_default_colors()[j];
    exists|rr: RowRef, c: Color|
        #[trigger] db.spec_row_at(rr, Row::Plain(PlainRow::Color(c))) && c.unknown1 == 0 && c.unknown2 == e.0
            && c.color == e.1 && c.unknown3 == 0 && DeviceSQLStringModel::spec_new(e.2) == Ok::<
            DeviceSQLStringModel,
            StringError,
        >(c.name@)
}

/// Inserts the default color rows into the database, one after another in
/// their order, each by `add_row` (see `spec_default_steps`). On success every row
/// stored before is kept and each default color row is stored; without a
/// table of colors it fails with `TableTypeNotPresent`, and otherwise only
/// where `add_row` refuses one of its rows (see `spec_default_refused`).
pub fn insert_default_colors(db: &mut Database) -> (r: Result<(), RekordcrateError>)
    requires
        old(db).wf(),
    ensures
        final(db).wf(),
        old(db).spec_rows_kept_in(*final(db)),
        r is Ok ==> forall|j: int| 0 <= j < 8 ==> #[trigger] spec_color_stored(*final(db), j),
        spec_no_table(*old(db), PlainPageType::Colors) ==> r == Err::<(), RekordcrateError>(
            RekordcrateError::TableTypeNotPresent(PageType::Plain(PlainPageType::Colors)),
        ),
        r is Ok ==> exists|dbs: Seq<Database>, refs: Seq<RowRef>|
            #![trigger dbs.len(), refs.len()]
            spec_default_steps(*old(db), *final(db), PlainPageType::Colors, 8, dbs, refs),
        r matches Err(e) ==> spec_no_table(*old(db), PlainPageType::Colors) || spec_default_refused(
            *old(db),
            *final(db),
            PlainPageType::Colors,
            8,
            e,
        ),
{
    let colors: [(u8, ColorIndex, &str); 8] = [
        (1, ColorIndex::Pink, "Pink"),
        (2, ColorIndex::Red, "Red"),
        (3, ColorIndex::Orange, "Orange"),
        (4, ColorIndex::Yellow, "Yellow"),
        (5, ColorIndex::Green, "Green"),
        (6, ColorIndex::Aqua, "Aqua"),
        (7, ColorIndex::Blue, "Blue"),
        (8, ColorIndex::Purple, "Purple"),
    ];
    assert forall|k: int| 0 <= k < 8 implies #[trigger] colors@[k].0 == spec_default_colors()[k].0
        && colors@[k].1 == spec_default_colors()[k].1 && colors@[k].2@ == spec_default_colors()[k].2 by {
    }
    assert forall|k: int| 0 <= k < 8 implies (#[trigger] spec_default_colors()[k]).2.len() <= 20 by {
        reveal_strlit("Pink");
        reveal_strlit("Red");
        reveal_strlit("Orange");
        reveal_strlit("Yellow");
        reveal_strlit("Green");
        reveal_strlit("Aqua");
        reveal_strlit("Blue");
        reveal_strlit("Purple");
    }
    proof {
        Database::lemma_rows_kept_refl(*db);
    }
    let ghost mut dbs: Seq<Database> = seq![*db];
    let ghost mut refs: Seq<RowRef> = Seq::empty();
    let mut i: usize = 0;
    while i < 8
        invariant
            i <= 8,
            db.wf(),
            forall|k: int|
                0 <= k < 8 ==> #[trigger] colors@[k].0 == spec_default_colors()[k].0 && colors@[k].1
                    == spec_default_colors()[k].1 && colors@[k].2@ == spec_default_colors()[k].2,
            old(db).spec_rows_kept_in(*db),
            forall|j: int| 0 <= j < i ==> #[trigger] spec_color_stored(*db, j),
            spec_no_table(*old(db), PlainPageType::Colors) ==> i == 0 && *db == *old(db),
            spec_same_table_types(*old(db), *db),
            dbs.len() == i + 1,
            refs.len() == i,
            dbs[0] == *old(db),
            dbs[i as int] == *db,
            forall|k: int|
                0 <= k < i ==> #[trigger] spec_default_step(dbs[k], dbs[k + 1], PlainPageType::Colors, k, refs[k]),
            forall|k: int| 0 <= k < 8 ==> (#[trigger] spec_default_colors()[k]).2.len() <= 20,
        decreases 8 - i,
    {
        let (id, color, name) = colors[i];
        assert(colors@[i as int].0 == spec_default_colors()[i as int].0);
        proof {
            assert(name@ == spec_default_colors()[i as int].2);
            lemma_short_new(name@);
        }
        let name = match row_string(name) {
            Ok(s) => s,
            Err(e) => {
                return Err(e);
            },
        };
        let row = Color { unknown1: 0, unknown2: id, color, unknown3: 0, name };
        if row.byte_len() > 65528 {
            return Err(RekordcrateError::IntegrityError("row too large"));
        }
        let ghost the_row = row;
        let ghost before = *db;
        let added = db.add_row(Row::Plain(PlainRow::Color(row)));
        proof {
            Database::lemma_rows_kept_trans(*old(db), before, *db);
            if !spec_no_table(*old(db), PlainPageType::Colors) {
                let k = choose|k: int|
                    0 <= k < old(db).spec_header().tables@.len() && old(db).spec_header().tables@[k].page_type
                        == PageType::Plain(PlainPageType::Colors);
                assert(before.spec_header().tables@[k].page_type == PageType::Plain(PlainPageType::Colors));
                lemma_add_row_step(before, *db, Row::Plain(PlainRow::Color(the_row)), added, k);
            }
        }
        match added {
            Ok(rr) => {
                proof {
                    assert(spec_color_row_at(Row::Plain(PlainRow::Color(the_row)), i as int));
                    let j = choose|j: int|
                        Database::spec_first_table(before.spec_header().tables@, PageType::Plain(PlainPageType::Colors), j)
                            && Database::spec_add_row_outcome(before, *db, Row::Plain(PlainRow::Color(the_row)), j, added);
                    let old_dbs = dbs;
                    let old_refs = refs;
                    dbs = dbs.push(*db);
                    refs = refs.push(rr);
                    assert forall|k: int| 0 <= k < i + 1 implies #[trigger] spec_default_step(
                        dbs[k],
                        dbs[k + 1],
                        PlainPageType::Colors,
                        k,
                        refs[k],
                    ) by {
                        if k < i {
                            assert(spec_default_step(old_dbs[k], old_dbs[k + 1], PlainPageType::Colors, k, old_refs[k]));
                            assert(dbs[k] == old_dbs[k] && dbs[k + 1] == old_dbs[k + 1] && refs[k] == old_refs[k]);
                        } else {
                            assert(!spec_no_table(*old(db), PlainPageType::Colors));
                            assert(spec_default_row_at(PlainPageType::Colors, Row::Plain(PlainRow::Color(the_row)), k));
                            assert(Database::spec_first_table(dbs[k].spec_header().tables@, PageType::Plain(PlainPageType::Colors), j));
                            assert(Database::spec_add_row_outcome(dbs[k], dbs[k + 1], Row::Plain(PlainRow::Color(the_row)), j, Ok::<RowRef, RekordcrateError>(refs[k])));
                        }
                    }
                }
                proof {
                    assert forall|j: int| 0 <= j < i + 1 implies #[trigger] spec_color_stored(*db, j) by {
                        if j < i {
                            assert(spec_color_stored(before, j));
                            let (rr1, c1) = choose|rr1: RowRef, c1: Color|
                                #[trigger] before.spec_row_at(rr1, Row::Plain(PlainRow::Color(c1))) && c1.unknown1 == 0
                                    && c1.unknown2 == spec_default_colors()[j].0 && c1.color
                                    == spec_default_colors()[j].1 && c1.unknown3 == 0
                                    && DeviceSQLStringModel::spec_new(spec_default_colors()[j].2) == Ok::<
                                    DeviceSQLStringModel,
                                    StringError,
                                >(c1.name@);
                            assert(db.spec_row_at(rr1, Row::Plain(PlainRow::Color(c1))));
                        } else {
                            assert(db.spec_row_at(rr, Row::Plain(PlainRow::Color(the_row))));
                        }
                    }
                }
            },
            Err(e) => {
                proof {
                    if !spec_no_table(*old(db), PlainPageType::Colors) {
                    assert(spec_color_row_at(Row::Plain(PlainRow::Color(the_row)), i as int));
                        assert(spec_default_row_at(PlainPageType::Colors, Row::Plain(PlainRow::Color(the_row)), i as int));
                        let j = choose|j: int|
                            Database::spec_first_table(before.spec_header().tables@, PageType::Plain(PlainPageType::Colors), j)
                                && Database::spec_add_row_outcome(before, *db, Row::Plain(PlainRow::Color(the_row)), j, added);
                        assert(Database::spec_add_row_outcome(before, *db, Row::Plain(PlainRow::Color(the_row)), j, Err::<RowRef, RekordcrateError>(e)));
                        assert(spec_default_fail(dbs[i as int], *db, PlainPageType::Colors, i as int, e));
                        assert(spec_default_prefix(*old(db), PlainPageType::Colors, i as int, dbs, refs));
                    }
                }
                return Err(e);
            },
        }
        i = i + 1;
    }
    assert(spec_default_steps(*old(db), *db, PlainPageType::Colors, 8, dbs, refs));
    Ok(())
}

/// The default columns: the ID, the unknown field and the name of each.
pub open spec fn spec_default_columns() -> Seq<(u16, u16, Seq<char>)> {
    seq![
        (1u16, 128u16, "\u{fffa}GENRE\u{fffb}"@),
        (2, 129, "\u{fffa}ARTIST\u{fffb}"@),
        (3, 130, "\u{fffa}ALBUM\u{fffb}"@),
        (4, 131, "\u{fffa}TRACK\u{fffb}"@),
        (5, 133, "\u{fffa}BPM\u{fffb}"@),
        (6, 134, "\u{fffa}RATING\u{fffb}"@),
        (7, 135, "\u{fffa}YEAR\u{fffb}"@),
        (8, 136, "\u{fffa}REMIXER\u{fffb}"@),
        (9, 137, "\u{fffa}LABEL\u{fffb}"@),
        (10, 138, "\u{fffa}ORIGINAL ARTIST\u{fffb}"@),
        (11, 139, "\u{fffa}KEY\u{fffb}"@),
        (12, 141, "\u{fffa}CUE\u{fffb}"@),
        (13, 142, "\u{fffa}COLOR\u{fffb}"@),
        (14, 146, "\u{fffa}TIME\u{fffb}"@),
        (15, 147, "\u{fffa}BITRATE\u{fffb}"@),
        (16, 148, "\u{fffa}FILE NAME\u{fffb}"@),
        (17, 132, "\u{fffa}PLAYLIST\u{fffb}"@),
        (18, 152, "\u{fffa}HOT CUE BANK\u{fffb}"@),
        (19, 149, "\u{fffa}HISTORY\u{fffb}"@),
        (20, 145, "\u{fffa}SEARCH\u{fffb}"@),
        (21, 150, "\u{fffa}COMMENTS\u{fffb}"@),
        (22, 140, "\u{fffa}DATE ADDED\u{fffb}"@),
        (23, 151, "\u{fffa}DJ PLAY COUNT\u{fffb}"@),
        (24, 144, "\u{fffa}FOLDER\u{fffb}"@),
        (25, 161, "\u{fffa}DEFAULT\u{fffb}"@),
        (26, 162, "\u{fffa}ALPHABET\u{fffb}"@),
        (27, 170, "\u{fffa}MATCHING\u{fffb}"@),
    ]
}

/// The default column at place `j` is stored in `db`: a column row with its ID
/// and unknown field, and its name encoded as a string.
pub open spec fn spec_column_stored(db: Database, j: int) -> bool {
    let e = spec_default_columns()[j];
    exists|rr: RowRef, c: ColumnEntry|
        #[trigger] db.spec_row_at(rr, Row::Plain(PlainRow::ColumnEntry(c))) && c.id == e.0 && c.unknown0
            == e.1 && DeviceSQLStringModel::spec_new(e.2) == Ok::<DeviceSQLStringModel, StringError>(
            c.column_name@,
        )
}

/// Inserts the default column rows into the database, one after another in
/// their order, each by `add_row` (see `spec_default_steps`). On success every row
/// stored before is kept and each default column row is stored; without a
/// table of columns it fails with `TableTypeNotPresent`, and otherwise only
/// where `add_row` refuses one of its rows (see `spec_default_refused`).
pub fn insert_default_columns(db: &mut Database) -> (r: Result<(), RekordcrateError>)
    requires
        old(db).wf(),
    ensures
        final(db).wf(),
        old(db).spec_rows_kept_in(*final(db)),
        r is Ok ==> forall|j: int| 0 <= j < 27 ==> #[trigger] spec_column_stored(*final(db), j),
        spec_no_table(*old(db), PlainPageType::Columns) ==> r == Err::<(), RekordcrateError>(
            RekordcrateError::TableTypeNotPresent(PageType::Plain(PlainPageType::Columns)),
        ),
        r is Ok ==> exists|dbs: Seq<Database>, refs: Seq<RowRef>|
            #![trigger dbs.len(), refs.len()]
            spec_default_steps(*old(db), *final(db), PlainPageType::Columns, 27, dbs, refs),
        r matches Err(e) ==> spec_no_table(*old(db), PlainPageType::Columns) || spec_default_refused(
            *old(db),
            *final(db),
            PlainPageType::Columns,
            27,
            e,
        ),
{
    let columns: [(u16, u16, &str); 27] = [
        (1, 128, "\u{fffa}GENRE\u{fffb}"),
        (2, 129, "\u{fffa}ARTIST\u{fffb}"),
        (3, 130, "\u{fffa}ALBUM\u{fffb}"),
        (4, 131, "\u{fffa}TRACK\u{fffb}"),
        (5, 133, "\u{fffa}BPM\u{fffb}"),
        (6, 134, "\u{fffa}RATING\u{fffb}"),
        (7, 135, "\u{fffa}YEAR\u{fffb}"),
        (8, 136, "\u{fffa}REMIXER\u{fffb}"),
        (9, 137, "\u{fffa}LABEL\u{fffb}"),
        (10, 138, "\u{fffa}ORIGINAL ARTIST\u{fffb}"),
        (11, 139, "\u{fffa}KEY\u{fffb}"),
        (12, 141, "\u{fffa}CUE\u{fffb}"),
        (13, 142, "\u{fffa}COLOR\u{fffb}"),
        (14, 146, "\u{fffa}TIME\u{fffb}"),
        (15, 147, "\u{fffa}BITRATE\u{fffb}"),
        (16, 148, "\u{fffa}FILE NAME\u{fffb}"),
        (17, 132, "\u{fffa}PLAYLIST\u{fffb}"),
        (18, 152, "\u{fffa}HOT CUE BANK\u{fffb}"),
        (19, 149, "\u{fffa}HISTORY\u{fffb}"),
        (20, 145, "\u{fffa}SEARCH\u{fffb}"),
        (21, 150, "\u{fffa}COMMENTS\u{fffb}"),
        (22, 140, "\u{fffa}DATE ADDED\u{fffb}"),
        (23, 151, "\u{fffa}DJ PLAY COUNT\u{fffb}"),
        (24, 144, "\u{fffa}FOLDER\u{fffb}"),
        (25, 161, "\u{fffa}DEFAULT\u{fffb}"),
        (26, 162, "\u{fffa}ALPHABET\u{fffb}"),
        (27, 170, "\u{fffa}MATCHING\u{fffb}"),
    ];
    assert forall|k: int| 0 <= k < 27 implies #[trigger] columns@[k].0 == spec_default_columns()[k].0
        && columns@[k].1 == spec_default_columns()[k].1 && columns@[k].2@ == spec_default_columns()[k].2 by {
    }
    assert forall|k: int| 0 <= k < 27 implies (#[trigger] spec_default_columns()[k]).2.len() <= 20 by {
        reveal_strlit("\u{fffa}GENRE\u{fffb}");
        reveal_strlit("\u{fffa}ARTIST\u{fffb}");
        reveal_strlit("\u{fffa}ALBUM\u{fffb}");
        reveal_strlit("\u{fffa}TRACK\u{fffb}");
        reveal_strlit("\u{fffa}BPM\u{fffb}");
        reveal_strlit("\u{fffa}RATING\u{fffb}");
        reveal_strlit("\u{fffa}YEAR\u{fffb}");
        reveal_strlit("\u{fffa}REMIXER\u{fffb}");
        reveal_strlit("\u{fffa}LABEL\u{fffb}");
        reveal_strlit("\u{fffa}ORIGINAL ARTIST\u{fffb}");
        reveal_strlit("\u{fffa}KEY\u{fffb}");
        reveal_strlit("\u{fffa}CUE\u{fffb}");
        reveal_strlit("\u{fffa}COLOR\u{fffb}");
        reveal_strlit("\u{fffa}TIME\u{fffb}");
        reveal_strlit("\u{fffa}BITRATE\u{fffb}");
        reveal_strlit("\u{fffa}FILE NAME\u{fffb}");
        reveal_strlit("\u{fffa}PLAYLIST\u{fffb}");
        reveal_strlit("\u{fffa}HOT CUE BANK\u{fffb}");
        reveal_strlit("\u{fffa}HISTORY\u{fffb}");
        reveal_strlit("\u{fffa}SEARCH\u{fffb}");
        reveal_strlit("\u{fffa}COMMENTS\u{fffb}");
        reveal_strlit("\u{fffa}DATE ADDED\u{fffb}");
        reveal_strlit("\u{fffa}DJ PLAY COUNT\u{fffb}");
        reveal_strlit("\u{fffa}FOLDER\u{fffb}");
        reveal_strlit("\u{fffa}DEFAULT\u{fffb}");
        reveal_strlit("\u{fffa}ALPHABET\u{fffb}");
        reveal_strlit("\u{fffa}MATCHING\u{fffb}");
    }
    proof {
        Database::lemma_rows_kept_refl(*db);
    }
    let ghost mut dbs: Seq<Database> = seq![*db];
    let ghost mut refs: Seq<RowRef> = Seq::empty();
    let mut i: usize = 0;
    while i < 27
        invariant
            i <= 27,
            db.wf(),
            forall|k: int|
                0 <= k < 27 ==> #[trigger] columns@[k].0 == spec_default_columns()[k].0 && columns@[k].1
                    == spec_default_columns()[k].1 && columns@[k].2@ == spec_default_columns()[k].2,
            old(db).spec_rows_kept_in(*db),
            forall|j: int| 0 <= j < i ==> #[trigger] spec_column_stored(*db, j),
            spec_no_table(*old(db), PlainPageType::Columns) ==> i == 0 && *db == *old(db),
            spec_same_table_types(*old(db), *db),
            dbs.len() == i + 1,
            refs.len() == i,
            dbs[0] == *old(db),
            dbs[i as int] == *db,
            forall|k: int|
                0 <= k < i ==> #[trigger] spec_default_step(dbs[k], dbs[k + 1], PlainPageType::Columns, k, refs[k]),
            forall|k: int| 0 <= k < 27 ==> (#[trigger] spec_default_columns()[k]).2.len() <= 20,
        decreases 27 - i,
    {
        let (id, unknown0, name) = columns[i];
        assert(columns@[i as int].0 == spec_default_columns()[i as int].0);
        proof {
            assert(name@ == spec_default_columns()[i as int].2);
            lemma_short_new(name@);
        }
        let column_name = match row_string(name) {
            Ok(s) => s,
            Err(e) => {
                return Err(e);
            },
        };
        let row = ColumnEntry { id, unknown0, column_name };
        if row.byte_len() > 65528 {
            return Err(RekordcrateError::IntegrityError("row too large"));
        }
        let ghost the_row = row;
        let ghost before = *db;
        let added = db.add_row(Row::Plain(PlainRow::ColumnEntry(row)));
        proof {
            Database::lemma_rows_kept_trans(*old(db), before, *db);
            if !spec_no_table(*old(db), PlainPageType::Columns) {
                let k = choose|k: int|
                    0 <= k < old(db).spec_header().tables@.len() && old(db).spec_header().tables@[k].page_type
                        == PageType::Plain(PlainPageType::Columns);
                assert(before.spec_header().tables@[k].page_type == PageType::Plain(PlainPageType::Columns));
                lemma_add_row_step(before, *db, Row::Plain(PlainRow::ColumnEntry(the_row)), added, k);
            }
        }
        match added {
            Ok(rr) => {
                proof {
                    assert(spec_column_row_at(Row::Plain(PlainRow::ColumnEntry(the_row)), i as int));
                    let j = choose|j: int|
                        Database::spec_first_table(before.spec_header().tables@, PageType::Plain(PlainPageType::Columns), j)
                            && Database::spec_add_row_outcome(before, *db, Row::Plain(PlainRow::ColumnEntry(the_row)), j, added);
                    let old_dbs = dbs;
                    let old_refs = refs;
                    dbs = dbs.push(*db);
                    refs = refs.push(rr);
                    assert forall|k: int| 0 <= k < i + 1 implies #[trigger] spec_default_step(
                        dbs[k],
                        dbs[k + 1],
                        PlainPageType::Columns,
                        k,
                        refs[k],
                    ) by {
                        if k < i {
                            assert(spec_default_step(old_dbs[k], old_dbs[k + 1], PlainPageType::Columns, k, old_refs[k]));
                            assert(dbs[k] == old_dbs[k] && dbs[k + 1] == old_dbs[k + 1] && refs[k] == old_refs[k]);
                        } else {
                            assert(!spec_no_table(*old(db), PlainPageType::Columns));
                            assert(spec_default_row_at(PlainPageType::Columns, Row::Plain(PlainRow::ColumnEntry(the_row)), k));
                            assert(Database::spec_first_table(dbs[k].spec_header().tables@, PageType::Plain(PlainPageType::Columns), j));
                            assert(Database::spec_add_row_outcome(dbs[k], dbs[k + 1], Row::Plain(PlainRow::ColumnEntry(the_row)), j, Ok::<RowRef, RekordcrateError>(refs[k])));
                        }
                    }
                }
                proof {
                    assert forall|j: int| 0 <= j < i + 1 implies #[trigger] spec_column_stored(*db, j) by {
                        if j < i {
                            assert(spec_column_stored(before, j));
                            let (rr1, c1) = choose|rr1: RowRef, c1: ColumnEntry|
                                #[trigger] before.spec_row_at(rr1, Row::Plain(PlainRow::ColumnEntry(c1))) && c1.id
                                    == spec_default_columns()[j].0 && c1.unknown0 == spec_default_columns()[j].1
                                    && DeviceSQLStringModel::spec_new(spec_default_columns()[j].2) == Ok::<
                                    DeviceSQLStringModel,
                                    StringError,
                                >(c1.column_name@);
                            assert(db.spec_row_at(rr1, Row::Plain(PlainRow::ColumnEntry(c1))));
                        } else {
                            assert(db.spec_row_at(rr, Row::Plain(PlainRow::ColumnEntry(the_row))));
                        }
                    }
                }
            },
            Err(e) => {
                proof {
                    if !spec_no_table(*old(db), PlainPageType::Columns) {
                    assert(spec_column_row_at(Row::Plain(PlainRow::ColumnEntry(the_row)), i as int));
                        assert(spec_default_row_at(PlainPageType::Columns, Row::Plain(PlainRow::ColumnEntry(the_row)), i as int));
                        let j = choose|j: int|
                            Database::spec_first_table(before.spec_header().tables@, PageType::Plain(PlainPageType::Columns), j)
                                && Database::spec_add_row_outcome(before, *db, Row::Plain(PlainRow::ColumnEntry(the_row)), j, added);
                        assert(Database::spec_add_row_outcome(before, *db, Row::Plain(PlainRow::ColumnEntry(the_row)), j, Err::<RowRef, RekordcrateError>(e)));
                        assert(spec_default_fail(dbs[i as int], *db, PlainPageType::Columns, i as int, e));
                        assert(spec_default_prefix(*old(db), PlainPageType::Columns, i as int, dbs, refs));
                    }
                }
                return Err(e);
            },
        }
        i = i + 1;
    }
    assert(spec_default_steps(*old(db), *db, PlainPageType::Columns, 27, dbs, refs));
    Ok(())
}

/// The default menu rows: category, content pointer, unknown field,
/// visibility and sort order of each.
pub open spec fn spec_default_menus() -> Seq<(u16, u16, u8, MenuVisibility, u16)> {
    seq![
        (1u16, 1u16, 99u8, MenuVisibility::Hidden, 0u16),
        (5, 6, 5, MenuVisibility::Hidden, 0),
        (6, 7, 99, MenuVisibility::Hidden, 0),
        (7, 8, 99, MenuVisibility::Hidden, 0),
        (8, 9, 99, MenuVisibility::Hidden, 0),
        (9, 10, 99, MenuVisibility::Hidden, 0),
        (10, 11, 99, MenuVisibility::Hidden, 0),
        (13, 15, 99, MenuVisibility::Hidden, 0),
        (14, 19, 4, MenuVisibility::Hidden, 0),
        (15, 20, 6, MenuVisibility::Hidden, 0),
        (16, 21, 99, MenuVisibility::Hidden, 0),
        (18, 23, 99, MenuVisibility::Hidden, 0),
        (2, 2, 2, MenuVisibility::Visible, 1),
        (3, 3, 3, MenuVisibility::Visible, 2),
        (4, 4, 1, MenuVisibility::Visible, 3),
        (11, 12, 99, MenuVisibility::Visible, 4),
        (17, 5, 99, MenuVisibility::Visible, 5),
        (19, 22, 99, MenuVisibility::Visible, 6),
        (20, 18, 99, MenuVisibility::Visible, 7),
        (27, 26, 99, MenuVisibility::Unknown(2), 8),
        (24, 17, 99, MenuVisibility::Visible, 9),
        (22, 27, 99, MenuVisibility::Visible, 10),
    ]
}

/// The menu row of a default entry.
pub open spec fn spec_menu_row(e: (u16, u16, u8, MenuVisibility, u16)) -> Row {
    Row::Plain(
        PlainRow::Menu(
            Menu { category_id: e.0, content_pointer: e.1, unknown: e.2, visibility: e.3, sort_order: e.4 },
        ),
    )
}

/// The default menu row at place `j` is stored in `db`.
pub open spec fn spec_menu_stored(db: Database, j: int) -> bool {
    exists|rr: RowRef| #[trigger] db.spec_row_at(rr, spec_menu_row(spec_default_menus()[j]))
}

/// Inserts the default menu rows into the database, one after another in
/// their order, each by `add_row` (see `spec_default_steps`). On success every row
/// stored before is kept and each default menu row is stored; without a
/// menu table it fails with `TableTypeNotPresent`, and otherwise only where
/// `add_row` refuses one of its rows (see `spec_default_refused`).
pub fn insert_default_menus(db: &mut Database) -> (r: Result<(), RekordcrateError>)
    requires
        old(db).wf(),
    ensures
        final(db).wf(),
        old(db).spec_rows_kept_in(*final(db)),
        r is Ok ==> forall|j: int| 0 <= j < 22 ==> #[trigger] spec_menu_stored(*final(db), j),
        spec_no_table(*old(db), PlainPageType::Menu) ==> r == Err::<(), RekordcrateError>(
            RekordcrateError::TableTypeNotPresent(PageType::Plain(PlainPageType::Menu)),
        ),
        r is Ok ==> exists|dbs: Seq<Database>, refs: Seq<RowRef>|
            #![trigger dbs.len(), refs.len()]
            spec_default_steps(*old(db), *final(db), PlainPageType::Menu, 22, dbs, refs),
        r matches Err(e) ==> spec_no_table(*old(db), PlainPageType::Menu) || spec_default_refused(
            *old(db),
            *final(db),
            PlainPageType::Menu,
            22,
            e,
        ),
{
    let menus: [(u16, u16, u8, MenuVisibility, u16); 22] = [
        (1, 1, 99, MenuVisibility::Hidden, 0),
        (5, 6, 5, MenuVisibility::Hidden, 0),
        (6, 7, 99, MenuVisibility::Hidden, 0),
        (7, 8, 99, MenuVisibility::Hidden, 0),
        (8, 9, 99, MenuVisibility::Hidden, 0),
        (9, 10, 99, MenuVisibility::Hidden, 0),
        (10, 11, 99, MenuVisibility::Hidden, 0),
        (13, 15, 99, MenuVisibility::Hidden, 0),
        (14, 19, 4, MenuVisibility::Hidden, 0),
        (15, 20, 6, MenuVisibility::Hidden, 0),
        (16, 21, 99, MenuVisibility::Hidden, 0),
        (18, 23, 99, MenuVisibility::Hidden, 0),
        (2, 2, 2, MenuVisibility::Visible, 1),
        (3, 3, 3, MenuVisibility::Visible, 2),
        (4, 4, 1, MenuVisibility::Visible, 3),
        (11, 12, 99, MenuVisibility::Visible, 4),
        (17, 5, 99, MenuVisibility::Visible, 5),
        (19, 22, 99, MenuVisibility::Visible, 6),
        (20, 18, 99, MenuVisibility::Visible, 7),
        (27, 26, 99, MenuVisibility::Unknown(2), 8),
        (24, 17, 99, MenuVisibility::Visible, 9),
        (22, 27, 99, MenuVisibility::Visible, 10),
    ];
    assert(menus@ == spec_default_menus());
    proof {
        Database::lemma_rows_kept_refl(*db);
    }
    let ghost mut dbs: Seq<Database> = seq![*db];
    let ghost mut refs: Seq<RowRef> = Seq::empty();
    let mut i: usize = 0;
    while i < 22
        invariant
            i <= 22,
            db.wf(),
            menus@ == spec_default_menus(),
            old(db).spec_rows_kept_in(*db),
            forall|j: int| 0 <= j < i ==> #[trigger] spec_menu_stored(*db, j),
            spec_no_table(*old(db), PlainPageType::Menu) ==> i == 0 && *db == *old(db),
            spec_same_table_types(*old(db), *db),
            dbs.len() == i + 1,
            refs.len() == i,
            dbs[0] == *old(db),
            dbs[i as int] == *db,
            forall|k: int|
                0 <= k < i ==> #[trigger] spec_default_step(dbs[k], dbs[k + 1], PlainPageType::Menu, k, refs[k]),
        decreases 22 - i,
    {
        let (category_id, content_pointer, unknown, visibility, sort_order) = menus[i];
        let row = Menu { category_id, content_pointer, unknown, visibility, sort_order };
        let ghost before = *db;
        let ghost the_row = row;
        let added = db.add_row(Row::Plain(PlainRow::Menu(row)));
        proof {
            Database::lemma_rows_kept_trans(*old(db), before, *db);
            if !spec_no_table(*old(db), PlainPageType::Menu) {
                let k = choose|k: int|
                    0 <= k < old(db).spec_header().tables@.len() && old(db).spec_header().tables@[k].page_type
                        == PageType::Plain(PlainPageType::Menu);
                assert(before.spec_header().tables@[k].page_type == PageType::Plain(PlainPageType::Menu));
                lemma_add_row_step(before, *db, Row::Plain(PlainRow::Menu(the_row)), added, k);
            }
        }
        match added {
            Ok(rr) => {
                proof {
                    assert(Row::Plain(PlainRow::Menu(the_row)) == spec_menu_row(spec_default_menus()[i as int]));
                    let j = choose|j: int|
                        Database::spec_first_table(before.spec_header().tables@, PageType::Plain(PlainPageType::Menu), j)
                            && Database::spec_add_row_outcome(before, *db, Row::Plain(PlainRow::Menu(the_row)), j, added);
                    let old_dbs = dbs;
                    let old_refs = refs;
                    dbs = dbs.push(*db);
                    refs = refs.push(rr);
                    assert forall|k: int| 0 <= k < i + 1 implies #[trigger] spec_default_step(
                        dbs[k],
                        dbs[k + 1],
                        PlainPageType::Menu,
                        k,
                        refs[k],
                    ) by {
                        if k < i {
                            assert(spec_default_step(old_dbs[k], old_dbs[k + 1], PlainPageType::Menu, k, old_refs[k]));
                            assert(dbs[k] == old_dbs[k] && dbs[k + 1] == old_dbs[k + 1] && refs[k] == old_refs[k]);
                        } else {
                            assert(!spec_no_table(*old(db), PlainPageType::Menu));
                            assert(spec_default_row_at(PlainPageType::Menu, Row::Plain(PlainRow::Menu(the_row)), k));
                            assert(Database::spec_first_table(dbs[k].spec_header().tables@, PageType::Plain(PlainPageType::Menu), j));
                            assert(Database::spec_add_row_outcome(dbs[k], dbs[k + 1], Row::Plain(PlainRow::Menu(the_row)), j, Ok::<RowRef, RekordcrateError>(refs[k])));
                        }
                    }
                }
                proof {
                    assert forall|j: int| 0 <= j < i + 1 implies #[trigger] spec_menu_stored(*db, j) by {
                        if j < i {
                            assert(spec_menu_stored(before, j));
                            let rr1 = choose|rr1: RowRef| before.spec_row_at(rr1, spec_menu_row(spec_default_menus()[j]));
                            assert(db.spec_row_at(rr1, spec_menu_row(spec_default_menus()[j])));
                        } else {
                            assert(db.spec_row_at(rr, spec_menu_row(spec_default_menus()[j])));
                        }
                    }
                }
            },
            Err(e) => {
                proof {
                    if !spec_no_table(*old(db), PlainPageType::Menu) {
                    assert(Row::Plain(PlainRow::Menu(the_row)) == spec_menu_row(spec_default_menus()[i as int]));
                        assert(spec_default_row_at(PlainPageType::Menu, Row::Plain(PlainRow::Menu(the_row)), i as int));
                        let j = choose|j: int|
                            Database::spec_first_table(before.spec_header().tables@, PageType::Plain(PlainPageType::Menu), j)
                                && Database::spec_add_row_outcome(before, *db, Row::Plain(PlainRow::Menu(the_row)), j, added);
                        assert(Database::spec_add_row_outcome(before, *db, Row::Plain(PlainRow::Menu(the_row)), j, Err::<RowRef, RekordcrateError>(e)));
                        assert(spec_default_fail(dbs[i as int], *db, PlainPageType::Menu, i as int, e));
                        assert(spec_default_prefix(*old(db), PlainPageType::Menu, i as int, dbs, refs));
                    }
                }
                return Err(e);
            },
        }
        i = i + 1;
    }
    assert(spec_default_steps(*old(db), *db, PlainPageType::Menu, 22, dbs, refs));
    Ok(())
}

/// The default menus: 22 entries. The twelve hidden ones come first and have
/// no sort order; the ten shown ones follow in their sort order 1 to 10, all
/// visible but the one for content 26, whose visibility byte is 2. In sort
/// order the shown menus are, as (category, content): (2, 2), (3, 3), (4, 4),
/// (11, 12), (17, 5), (19, 22), (20, 18), (27, 26), (24, 17), (22, 27).
pub proof fn lemma_default_menus_table()
    ensures
        spec_default_menus().len() == 22,
        forall|k: int|
            0 <= k < 22 ==> ((#[trigger] spec_default_menus()[k]).4 == 0 <==> spec_default_menus()[k].3
                == MenuVisibility::Hidden),
        forall|k: int| 0 <= k < 12 ==> (#[trigger] spec_default_menus()[k]).3 == MenuVisibility::Hidden,
        forall|k: int| 12 <= k < 22 ==> (#[trigger] spec_default_menus()[k]).4 == k - 11,
        forall|k: int|
            12 <= k < 22 ==> ((#[trigger] spec_default_menus()[k]).3 == MenuVisibility::Visible
                <==> spec_default_menus()[k].1 != 26),
        forall|k: int|
            0 <= k < 22 && (#[trigger] spec_default_menus()[k]).1 == 26 ==> spec_default_menus()[k].3
                == MenuVisibility::Unknown(2),
        spec_default_menus().subrange(12, 22).map_values(|e: (u16, u16, u8, MenuVisibility, u16)| (e.0, e.1))
            == seq![(2u16, 2u16), (3, 3), (4, 4), (11, 12), (17, 5), (19, 22), (20, 18), (27, 26), (24, 17), (22, 27)],
{
    let m = spec_default_menus();
    assert(m.subrange(12, 22).map_values(|e: (u16, u16, u8, MenuVisibility, u16)| (e.0, e.1)) =~= seq![
        (2u16, 2u16),
        (3, 3),
        (4, 4),
        (11, 12),
        (17, 5),
        (19, 22),
        (20, 18),
        (27, 26),
        (24, 17),
        (22, 27),
    ]);
}

/// The default colors: eight, with IDs 1 to 8 in order, each labelled with
/// the color whose code is its ID (pink, red, orange, yellow, green, aqua,
/// blue, purple).
pub proof fn lemma_default_colors_table()
    ensures
        spec_default_colors().len() == 8,
        forall|k: int| 0 <= k < 8 ==> (#[trigger] spec_default_colors()[k]).0 == k + 1,
        forall|k: int| 0 <= k < 8 ==> (#[trigger] spec_default_colors()[k]).1.spec_to_u8() == k + 1,
{
}

/// The default columns: 27, with IDs 1 to 27 in order, and unknown fields
/// from 128 to 170, no two alike.
pub proof fn lemma_default_columns_table()
    ensures
        spec_default_columns().len() == 27,
        forall|k: int| 0 <= k < 27 ==> (#[trigger] spec_default_columns()[k]).0 == k + 1,
        forall|k: int| 0 <= k < 27 ==> 128 <= (#[trigger] spec_default_columns()[k]).1 <= 170,
{
}

} // verus!
