use rekordcrate::pdb::{
    Album, AlbumId, Artist, ArtistId, ArtworkId, ColumnEntry, DeviceSQLString, GenreId, Header,
    Key, KeyId, Label, LabelId, Menu, MenuVisibility, OffsetArrayContainer, PageIndex, PageType,
    PlainPageType, PlainRow, PlaylistEntry, PlaylistTreeNode, PlaylistTreeNodeId, Row, Subtype,
    Table, Track, TrackId, TrackStrings, TrailingName, Color, DatabaseType,
};
use rekordcrate::util::{ColorIndex, FileType};

fn check_header_roundtrip(bin: &[u8], header: Header) {
    let mut written = Vec::new();
    header.serialize(&mut written);
    assert_eq!(written, bin);
    let (parsed, end) = Header::parse(bin, 0, DatabaseType::Plain).unwrap();
    assert_eq!(parsed, header);
    assert_eq!(end, bin.len());
}

trait IntoPlainRow {
    fn into_plain_row(self) -> PlainRow;
}

impl IntoPlainRow for Track {
    fn into_plain_row(self) -> PlainRow {
        PlainRow::Track(self)
    }
}
impl IntoPlainRow for Artist {
    fn into_plain_row(self) -> PlainRow {
        PlainRow::Artist(self)
    }
}
impl IntoPlainRow for Album {
    fn into_plain_row(self) -> PlainRow {
        PlainRow::Album(self)
    }
}
impl IntoPlainRow for Label {
    fn into_plain_row(self) -> PlainRow {
        PlainRow::Label(self)
    }
}
impl IntoPlainRow for Key {
    fn into_plain_row(self) -> PlainRow {
        PlainRow::Key(self)
    }
}
impl IntoPlainRow for Color {
    fn into_plain_row(self) -> PlainRow {
        PlainRow::Color(self)
    }
}
impl IntoPlainRow for PlaylistTreeNode {
    fn into_plain_row(self) -> PlainRow {
        PlainRow::PlaylistTreeNode(self)
    }
}
impl IntoPlainRow for PlaylistEntry {
    fn into_plain_row(self) -> PlainRow {
        PlainRow::PlaylistEntry(self)
    }
}
impl IntoPlainRow for ColumnEntry {
    fn into_plain_row(self) -> PlainRow {
        PlainRow::ColumnEntry(self)
    }
}
impl IntoPlainRow for Menu {
    fn into_plain_row(self) -> PlainRow {
        PlainRow::Menu(self)
    }
}

fn check_row_roundtrip<R: IntoPlainRow>(bin: &[u8], row: R) {
    let row = Row::Plain(row.into_plain_row());
    let page_type = row.page_type().unwrap();
    let mut written = Vec::new();
    row.write(&mut written, 0).unwrap();
    assert_eq!(written, bin);
    let parsed = Row::parse(bin, 0, page_type).unwrap();
    assert_eq!(parsed, row);
}

#[test]
fn empty_header() {
    let header = Header {
        page_size: 4096,
        num_tables: 0,
        next_unused_page: PageIndex::try_from(1).unwrap(),
        unknown: 0,
        sequence: 1,
        tables: vec![],
    };
    check_header_roundtrip(
        &[
            0, 0, 0, 0, 0, 16, 0, 0, 0, 0, 0, 0, 1, 0, 0, 0, 0, 0, 0, 0, 1, 0, 0, 0, 0, 0, 0, 0,
        ],
        header,
    );
}

#[test]
fn demo_tracks_header() {
    let header = Header {
        page_size: 4096,
        num_tables: 20,
        next_unused_page: PageIndex::try_from(51).unwrap(),
        unknown: 5,
        sequence: 34,
        tables: [
            Table {
                page_type: PageType::Plain(PlainPageType::Tracks),
                empty_candidate: 47,
                first_page: PageIndex::try_from(1).unwrap(),
                last_page: PageIndex::try_from(2).unwrap(),
            },
            Table {
                page_type: PageType::Plain(PlainPageType::Genres),
                empty_candidate: 4,
                first_page: PageIndex::try_from(3).unwrap(),
                last_page: PageIndex::try_from(3).unwrap(),
            },
            Table {
                page_type: PageType::Plain(PlainPageType::Artists),
                empty_candidate: 49,
                first_page: PageIndex::try_from(5).unwrap(),
                last_page: PageIndex::try_from(6).unwrap(),
            },
            Table {
                page_type: PageType::Plain(PlainPageType::Albums),
                empty_candidate: 8,
                first_page: PageIndex::try_from(7).unwrap(),
                last_page: PageIndex::try_from(7).unwrap(),
            },
            Table {
                page_type: PageType::Plain(PlainPageType::Labels),
                empty_candidate: 50,
                first_page: PageIndex::try_from(9).unwrap(),
                last_page: PageIndex::try_from(10).unwrap(),
            },
            Table {
                page_type: PageType::Plain(PlainPageType::Keys),
                empty_candidate: 46,
                first_page: PageIndex::try_from(11).unwrap(),
                last_page: PageIndex::try_from(12).unwrap(),
            },
            Table {
                page_type: PageType::Plain(PlainPageType::Colors),
                empty_candidate: 42,
                first_page: PageIndex::try_from(13).unwrap(),
                last_page: PageIndex::try_from(14).unwrap(),
            },
            Table {
                page_type: PageType::Plain(PlainPageType::PlaylistTree),
                empty_candidate: 16,
                first_page: PageIndex::try_from(15).unwrap(),
                last_page: PageIndex::try_from(15).unwrap(),
            },
            Table {
                page_type: PageType::Plain(PlainPageType::PlaylistEntries),
                empty_candidate: 18,
                first_page: PageIndex::try_from(17).unwrap(),
                last_page: PageIndex::try_from(17).unwrap(),
            },
            Table {
                page_type: PageType::Unknown(9),
                empty_candidate: 20,
                first_page: PageIndex::try_from(19).unwrap(),
                last_page: PageIndex::try_from(19).unwrap(),
            },
            Table {
                page_type: PageType::Unknown(10),
                empty_candidate: 22,
                first_page: PageIndex::try_from(21).unwrap(),
                last_page: PageIndex::try_from(21).unwrap(),
            },
            Table {
                page_type: PageType::Plain(PlainPageType::HistoryPlaylists),
                empty_candidate: 24,
                first_page: PageIndex::try_from(23).unwrap(),
                last_page: PageIndex::try_from(23).unwrap(),
            },
            Table {
                page_type: PageType::Plain(PlainPageType::HistoryEntries),
                empty_candidate: 26,
                first_page: PageIndex::try_from(25).unwrap(),
                last_page: PageIndex::try_from(25).unwrap(),
            },
            Table {
                page_type: PageType::Plain(PlainPageType::Artwork),
                empty_candidate: 28,
                first_page: PageIndex::try_from(27).unwrap(),
                last_page: PageIndex::try_from(27).unwrap(),
            },
            Table {
                page_type: PageType::Unknown(14),
                empty_candidate: 30,
                first_page: PageIndex::try_from(29).unwrap(),
                last_page: PageIndex::try_from(29).unwrap(),
            },
            Table {
                page_type: PageType::Unknown(15),
                empty_candidate: 32,
                first_page: PageIndex::try_from(31).unwrap(),
                last_page: PageIndex::try_from(31).unwrap(),
            },
            Table {
                page_type: PageType::Plain(PlainPageType::Columns),
                empty_candidate: 43,
                first_page: PageIndex::try_from(33).unwrap(),
                last_page: PageIndex::try_from(34).unwrap(),
            },
            Table {
                page_type: PageType::Plain(PlainPageType::Menu),
                empty_candidate: 44,
                first_page: PageIndex::try_from(35).unwrap(),
                last_page: PageIndex::try_from(36).unwrap(),
            },
            Table {
                page_type: PageType::Unknown(18),
                empty_candidate: 45,
                first_page: PageIndex::try_from(37).unwrap(),
                last_page: PageIndex::try_from(38).unwrap(),
            },
            Table {
                page_type: PageType::Unknown(19),
                empty_candidate: 48,
                first_page: PageIndex::try_from(39).unwrap(),
                last_page: PageIndex::try_from(41).unwrap(),
            },
        ]
        .to_vec(),
    };

    check_header_roundtrip(
        &[
            0, 0, 0, 0, 0, 16, 0, 0, 20, 0, 0, 0, 51, 0, 0, 0, 5, 0, 0, 0, 34, 0, 0, 0, 0, 0, 0, 0,
            0, 0, 0, 0, 47, 0, 0, 0, 1, 0, 0, 0, 2, 0, 0, 0, 1, 0, 0, 0, 4, 0, 0, 0, 3, 0, 0, 0, 3,
            0, 0, 0, 2, 0, 0, 0, 49, 0, 0, 0, 5, 0, 0, 0, 6, 0, 0, 0, 3, 0, 0, 0, 8, 0, 0, 0, 7, 0,
            0, 0, 7, 0, 0, 0, 4, 0, 0, 0, 50, 0, 0, 0, 9, 0, 0, 0, 10, 0, 0, 0, 5, 0, 0, 0, 46, 0,
            0, 0, 11, 0, 0, 0, 12, 0, 0, 0, 6, 0, 0, 0, 42, 0, 0, 0, 13, 0, 0, 0, 14, 0, 0, 0, 7,
            0, 0, 0, 16, 0, 0, 0, 15, 0, 0, 0, 15, 0, 0, 0, 8, 0, 0, 0, 18, 0, 0, 0, 17, 0, 0, 0,
            17, 0, 0, 0, 9, 0, 0, 0, 20, 0, 0, 0, 19, 0, 0, 0, 19, 0, 0, 0, 10, 0, 0, 0, 22, 0, 0,
            0, 21, 0, 0, 0, 21, 0, 0, 0, 11, 0, 0, 0, 24, 0, 0, 0, 23, 0, 0, 0, 23, 0, 0, 0, 12, 0,
            0, 0, 26, 0, 0, 0, 25, 0, 0, 0, 25, 0, 0, 0, 13, 0, 0, 0, 28, 0, 0, 0, 27, 0, 0, 0, 27,
            0, 0, 0, 14, 0, 0, 0, 30, 0, 0, 0, 29, 0, 0, 0, 29, 0, 0, 0, 15, 0, 0, 0, 32, 0, 0, 0,
            31, 0, 0, 0, 31, 0, 0, 0, 16, 0, 0, 0, 43, 0, 0, 0, 33, 0, 0, 0, 34, 0, 0, 0, 17, 0, 0,
            0, 44, 0, 0, 0, 35, 0, 0, 0, 36, 0, 0, 0, 18, 0, 0, 0, 45, 0, 0, 0, 37, 0, 0, 0, 38, 0,
            0, 0, 19, 0, 0, 0, 48, 0, 0, 0, 39, 0, 0, 0, 41, 0, 0, 0,
        ],
        header,
    );
}

#[test]
fn track_row() {
    let row = Track {
        subtype: Subtype(0x24),
        index_shift: 0x0000,
        bitmask: 788224,
        sample_rate: 44100,
        composer_id: ArtistId(0),
        file_size: 6899624,
        unknown2: 214020570,
        unknown3: 64128,
        unknown4: 1511,
        artwork_id: ArtworkId(0),
        key_id: KeyId(5),
        orig_artist_id: ArtistId(0),
        label_id: LabelId(1),
        remixer_id: ArtistId(0),
        bitrate: 320,
        track_number: 0,
        tempo: 12800,
        genre_id: GenreId(0),
        album_id: AlbumId(0),
        artist_id: ArtistId(1),
        id: TrackId(1),
        disc_number: 0,
        play_count: 0,
        year: 0,
        sample_depth: 16,
        duration: 172,
        unknown5: 41,
        color: ColorIndex::NoColor,
        rating: 0,
        file_type: FileType::Mp3,
        offsets: OffsetArrayContainer {
            offsets: [
                136u16, 137, 138, 140, 142, 143, 144, 145, 148, 149, 150, 161, 162, 163, 164,
                208, 219, 249, 262, 263, 280,
            ]
            .into(),
            inner: TrackStrings {
                isrc: DeviceSQLString::new_isrc("".to_string()).unwrap(),
                lyricist: DeviceSQLString::empty(),
                unknown_string2: "3".parse().unwrap(),
                unknown_string3: "3".parse().unwrap(),
                unknown_string4: DeviceSQLString::empty(),
                message: DeviceSQLString::empty(),
                publish_track_information: DeviceSQLString::empty(),
                autoload_hotcues: "ON".parse().unwrap(),
                unknown_string5: DeviceSQLString::empty(),
                unknown_string6: DeviceSQLString::empty(),
                date_added: "2018-05-25".parse().unwrap(),
                release_date: DeviceSQLString::empty(),
                mix_name: DeviceSQLString::empty(),
                unknown_string7: DeviceSQLString::empty(),
                analyze_path: "/PIONEER/USBANLZ/P016/0000875E/ANLZ0000.DAT"
                    .parse()
                    .unwrap(),
                analyze_date: "2022-02-02".parse().unwrap(),
                comment: "Tracks by www.loopmasters.com".parse().unwrap(),
                title: "Demo Track 1".parse().unwrap(),
                unknown_string8: DeviceSQLString::empty(),
                filename: "Demo Track 1.mp3".parse().unwrap(),
                file_path: "/Contents/Loopmasters/UnknownAlbum/Demo Track 1.mp3"
                    .parse()
                    .unwrap(),
            },
        },
    };
    check_row_roundtrip(
        &[
            36, 0, 0, 0, 0, 7, 12, 0, 68, 172, 0, 0, 0, 0, 0, 0, 168, 71, 105, 0, 218, 177, 193,
            12, 128, 250, 231, 5, 0, 0, 0, 0, 5, 0, 0, 0, 0, 0, 0, 0, 1, 0, 0, 0, 0, 0, 0, 0, 64,
            1, 0, 0, 0, 0, 0, 0, 0, 50, 0, 0, 0, 0, 0, 0, 0, 0, 0, 0, 1, 0, 0, 0, 1, 0, 0, 0, 0, 0,
            0, 0, 0, 0, 16, 0, 172, 0, 41, 0, 0, 0, 1, 0, 3, 0, 136, 0, 137, 0, 138, 0, 140, 0,
            142, 0, 143, 0, 144, 0, 145, 0, 148, 0, 149, 0, 150, 0, 161, 0, 162, 0, 163, 0, 164, 0,
            208, 0, 219, 0, 249, 0, 6, 1, 7, 1, 24, 1, 3, 3, 5, 51, 5, 51, 3, 3, 3, 7, 79, 78, 3,
            3, 23, 50, 48, 49, 56, 45, 48, 53, 45, 50, 53, 3, 3, 3, 89, 47, 80, 73, 79, 78, 69, 69,
            82, 47, 85, 83, 66, 65, 78, 76, 90, 47, 80, 48, 49, 54, 47, 48, 48, 48, 48, 56, 55, 53,
            69, 47, 65, 78, 76, 90, 48, 48, 48, 48, 46, 68, 65, 84, 23, 50, 48, 50, 50, 45, 48, 50,
            45, 48, 50, 61, 84, 114, 97, 99, 107, 115, 32, 98, 121, 32, 119, 119, 119, 46, 108,
            111, 111, 112, 109, 97, 115, 116, 101, 114, 115, 46, 99, 111, 109, 27, 68, 101, 109,
            111, 32, 84, 114, 97, 99, 107, 32, 49, 3, 35, 68, 101, 109, 111, 32, 84, 114, 97, 99,
            107, 32, 49, 46, 109, 112, 51, 105, 47, 67, 111, 110, 116, 101, 110, 116, 115, 47, 76,
            111, 111, 112, 109, 97, 115, 116, 101, 114, 115, 47, 85, 110, 107, 110, 111, 119, 110,
            65, 108, 98, 117, 109, 47, 68, 101, 109, 111, 32, 84, 114, 97, 99, 107, 32, 49, 46,
            109, 112, 51,
        ],
        row,
    );
}

#[test]
fn artist_row() {
    let row = Artist {
        subtype: Subtype(0x60),
        index_shift: 0x0000,
        id: ArtistId(1),
        offsets: OffsetArrayContainer {
            offsets: [10u8].into(),
            inner: TrailingName {
                name: "Loopmasters".parse().unwrap(),
            },
        },
    };
    check_row_roundtrip(
        &[
            96, 0, 0, 0, 1, 0, 0, 0, 3, 10, 25, 76, 111, 111, 112, 109, 97, 115, 116, 101, 114, 115,
        ],
        row,
    );
}

#[test]
fn album_row() {
    let row1 = Album {
        subtype: Subtype(0x80),
        index_shift: 0x0000,
        unknown2: 0,
        artist_id: ArtistId(2),
        id: AlbumId(2),
        unknown3: 0,
        offsets: OffsetArrayContainer {
            offsets: [0x16u8].into(),
            inner: TrailingName {
                name: "GOOD LUCK".parse().unwrap(),
            },
        },
    };

    check_row_roundtrip(
        &[
            0x80, 0x00, 0x00, 0x00, 0x00, 0x00, 0x00, 0x00, 0x02, 0x00, 0x00, 0x00, 0x02, 0x00,
            0x00, 0x00, 0x00, 0x00, 0x00, 0x00, 0x03, 0x16, 0x15, 0x47, 0x4f, 0x4f, 0x44, 0x20,
            0x4c, 0x55, 0x43, 0x4b,
        ],
        row1,
    );
    let row2 = Album {
        subtype: Subtype(0x80),
        index_shift: 0x0000,
        unknown2: 0,
        artist_id: ArtistId(0),
        id: AlbumId(3),
        unknown3: 0,
        offsets: OffsetArrayContainer {
            offsets: [0x16u8].into(),
            inner: TrailingName {
                name: "Techno Rave 2023".parse().unwrap(),
            },
        },
    };

    check_row_roundtrip(
        &[
            0x80, 0x00, 0x00, 0x00, 0x00, 0x00, 0x00, 0x00, 0x00, 0x00, 0x00, 0x00, 0x03, 0x00,
            0x00, 0x00, 0x00, 0x00, 0x00, 0x00, 0x03, 0x16, 0x23, 0x54, 0x65, 0x63, 0x68, 0x6e,
            0x6f, 0x20, 0x52, 0x61, 0x76, 0x65, 0x20, 0x32, 0x30, 0x32, 0x33,
        ],
        row2,
    );
}

#[test]
fn label_row() {
    let row = Label {
        id: LabelId(1),
        name: "Loopmasters".parse().unwrap(),
    };
    check_row_roundtrip(
        &[
            1, 0, 0, 0, 25, 76, 111, 111, 112, 109, 97, 115, 116, 101, 114, 115,
        ],
        row,
    );
}

#[test]
fn key_row() {
    let row = Key {
        id: KeyId(1),
        id2: 1,
        name: "Dm".parse().unwrap(),
    };
    check_row_roundtrip(&[1, 0, 0, 0, 1, 0, 0, 0, 7, 68, 109], row);
}

#[test]
fn color_row() {
    let row = Color {
        unknown1: 0,
        unknown2: 1,
        color: ColorIndex::Pink,
        unknown3: 0,
        name: "Pink".parse().unwrap(),
    };
    check_row_roundtrip(&[0, 0, 0, 0, 1, 1, 0, 0, 11, 80, 105, 110, 107], row);
}

#[test]
fn playlist_tree_row() {
    let row = PlaylistTreeNode {
        parent_id: PlaylistTreeNodeId(0),
        unknown: 0,
        sort_order: 0,
        id: PlaylistTreeNodeId(1),
        node_is_folder: 1,
        name: "current set 2021 reduced".parse().unwrap(),
    };

    check_row_roundtrip(
        &[
            0, 0, 0, 0, 0, 0, 0, 0, 0, 0, 0, 0, 1, 0, 0, 0, 1, 0, 0, 0, 0x33, 0x63, 0x75, 0x72,
            0x72, 0x65, 0x6e, 0x74, 0x20, 0x73, 0x65, 0x74, 0x20, 0x32, 0x30, 0x32, 0x31, 0x20,
            0x72, 0x65, 0x64, 0x75, 0x63, 0x65, 0x64,
        ],
        row,
    );
}

#[test]
fn playlist_entry_row() {
    let row = PlaylistEntry {
        entry_index: 1,
        track_id: TrackId(1),
        playlist_id: PlaylistTreeNodeId(6),
    };

    check_row_roundtrip(&[1, 0, 0, 0, 1, 0, 0, 0, 6, 0, 0, 0], row);
}

#[test]
fn column_entry() {
    let row = ColumnEntry {
        id: 1,
        unknown0: 128,
        column_name: "\u{fffa}GENRE\u{fffb}".parse().unwrap(),
    };
    let bin = &[
        0x01, 0x00, 0x80, 0x00, 0x90, 0x12, 0x00, 0x00, 0xfa, 0xff, 0x47, 0x00, 0x45, 0x00, 0x4e,
        0x00, 0x52, 0x00, 0x45, 0x00, 0xfb, 0xff,
    ];
    check_row_roundtrip(bin, row);
}

#[test]
fn menu_row() {
    let row = Menu {
        category_id: 2,
        content_pointer: 2,
        unknown: 2,
        visibility: MenuVisibility::Visible,
        sort_order: 1,
    };
    let bin = &[0x02, 0x00, 0x02, 0x00, 0x02, 0x00, 0x01, 0x00];
    check_row_roundtrip(bin, row);
}

