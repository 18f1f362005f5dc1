//! The row types of the plain database exports (`export.pdb`), with their
//! binary layout.
//!
//! Most rows are a run of fields stored one after the other. Album, artist and
//! track rows end in an offset array whose strings lie at offsets from the
//! start of the row.

use crate::codec::{
    agree_on, bytes16, bytes32, holds_at, le16, le32, lemma_agree_holds, lemma_agree_trans,
    lemma_holds_split, lemma_le16_sub, lemma_le32_sub, lemma_parse_held, lemma_write_at_agree,
    lemma_write_at_holds, lemma_write_at_keeps, push_u16, push_u8, push_u32, read_u16, read_u32,
    write_at, write_bytes_at, Codec, Magic16, Magic32,
};
use crate::pdb::ext::{ExtPageType, ExtRow};
use crate::pdb::offset_array::{OffsetArrayContainer, OffsetArrayError, OffsetArrayItems};
use crate::pdb::string::{DeviceSQLString, DeviceSQLStringModel};
use crate::pdb::{
    AlbumId, ArtistId, ArtworkId, GenreId, HistoryPlaylistId, KeyId, LabelId, PageType,
    PlainPageType, PlaylistTreeNodeId, Subtype, TrackId,
};
use crate::util::{ColorIndex, FileType};
use vstd::prelude::*;

verus! {

/// `v` is the value decoded at byte `p` of `s`.
pub open spec fn codec_read<T: Codec>(v: T::V, s: Seq<u8>, p: int) -> bool {
    T::spec_parse(s, p) matches Some((w, _)) && w == v
}

/// `buf` after writing the encoding of `v` at `p`.
pub open spec fn codec_write<T: Codec>(v: T::V, buf: Seq<u8>, p: int) -> Seq<u8> {
    write_at(buf, p, T::spec_bytes(v))
}

/// Decodes a value at `pos`.
pub fn read_value<T: Codec>(data: &[u8], pos: usize) -> (r: Option<T>)
    requires
        pos <= data@.len(),
    ensures
        r is Some <==> T::spec_parse(data@, pos as int) is Some,
        r matches Some(v) ==> codec_read::<T>(v@, data@, pos as int) && T::spec_writable(v@),
{
    let len = data.len();
    proof {
        T::lemma_parse_writable(data@, pos as int);
    }
    match T::parse(data, pos) {
        Some((v, _)) => Some(v),
        None => None,
    }
}

/// Writes the encoding of `v` at `pos`; fails, writing nothing, where it would
/// reach beyond the addressable memory.
pub fn write_value<T: Codec>(v: &T, buf: &mut Vec<u8>, pos: usize) -> (r: Result<(), OffsetArrayError>)
    requires
        T::spec_writable(v@),
    ensures
        r is Ok <==> pos + T::spec_bytes(v@).len() <= usize::MAX,
        r is Ok ==> final(buf)@ == codec_write::<T>(v@, old(buf)@, pos as int),
        r is Err ==> r == Err::<(), OffsetArrayError>(OffsetArrayError::PositionOverflow)
            && final(buf)@ == old(buf)@,
{
    let mut bytes: Vec<u8> = Vec::new();
    v.serialize(&mut bytes);
    assert(bytes@ =~= T::spec_bytes(v@));
    if bytes.len() > usize::MAX - pos {
        return Err(OffsetArrayError::PositionOverflow);
    }
    write_bytes_at(buf, pos, bytes.as_slice());
    Ok(())
}

/// Visibility state of a menu on the CDJ.
#[derive(Debug, PartialEq, Eq, Clone, Copy, Structural)]
pub enum MenuVisibility {
    /// The menu is visible (stored as 0).
    Visible,
    /// The menu is hidden (stored as 1).
    Hidden,
    /// Any other stored value.
    Unknown(u8),
}

impl MenuVisibility {
    /// The visibility stored as `v`.
    pub open spec fn spec_from_u8(v: u8) -> MenuVisibility {
        if v == 0 {
            MenuVisibility::Visible
        } else if v == 1 {
            MenuVisibility::Hidden
        } else {
            MenuVisibility::Unknown(v)
        }
    }

    /// The byte that stores the visibility.
    pub open spec fn spec_to_u8(self) -> u8 {
        match self {
            MenuVisibility::Visible => 0,
            MenuVisibility::Hidden => 1,
            MenuVisibility::Unknown(v) => v,
        }
    }

    /// The visibility stored as `v`.
    pub fn from_u8(v: u8) -> (r: MenuVisibility)
        ensures
            r == Self::spec_from_u8(v),
    {
        if v == 0 {
            MenuVisibility::Visible
        } else if v == 1 {
            MenuVisibility::Hidden
        } else {
            MenuVisibility::Unknown(v)
        }
    }

    /// The byte that stores the visibility.
    pub fn to_u8(&self) -> (r: u8)
        ensures
            r == self.spec_to_u8(),
    {
        match self {
            MenuVisibility::Visible => 0,
            MenuVisibility::Hidden => 1,
            MenuVisibility::Unknown(v) => *v,
        }
    }
}

impl View for MenuVisibility {
    type V = MenuVisibility;

    open spec fn view(&self) -> MenuVisibility {
        *self
    }
}

/// A visibility is stored as one byte; `Unknown(0)` and `Unknown(1)` read back as
/// `Visible` and `Hidden`.
impl Codec for MenuVisibility {
    open spec fn spec_bytes(v: MenuVisibility) -> Seq<u8> {
        seq![v.spec_to_u8()]
    }

    open spec fn spec_parse(s: Seq<u8>, p: int) -> Option<(MenuVisibility, int)> {
        if 0 <= p < s.len() {
            Some((MenuVisibility::spec_from_u8(s[p]), p + 1))
        } else {
            None
        }
    }

    open spec fn spec_wf(v: MenuVisibility) -> bool {
        MenuVisibility::spec_from_u8(v.spec_to_u8()) == v
    }

    open spec fn spec_writable(v: MenuVisibility) -> bool {
        true
    }

    proof fn lemma_parse_bounds(s: Seq<u8>, p: int) {
    }

    proof fn lemma_parse_writable(s: Seq<u8>, p: int) {
    }

    proof fn lemma_roundtrip(v: MenuVisibility, pre: Seq<u8>, post: Seq<u8>) {
        assert((pre + seq![v.spec_to_u8()] + post)[pre.len() as int] == v.spec_to_u8());
    }

    fn parse(data: &[u8], pos: usize) -> (r: Option<(MenuVisibility, usize)>) {
        if pos < data.len() {
            Some((MenuVisibility::from_u8(data[pos]), pos + 1))
        } else {
            None
        }
    }

    fn byte_len(&self) -> (r: usize) {
        1
    }

    fn serialize(&self, out: &mut Vec<u8>) {
        out.push(self.to_u8());
    }
}

/// The fields of a `Artwork` row in storage order.
pub type ArtworkFields = (u32, DeviceSQLString);

/// Contains the artwork path and ID.
#[derive(Debug, PartialEq, Eq, Clone)]
pub struct Artwork {
    /// ID of this row.
    pub id: ArtworkId,
    /// Path to the album art file.
    pub path: DeviceSQLString,
}

impl View for Artwork {
    type V = (u32, DeviceSQLStringModel);

    open spec fn view(&self) -> (u32, DeviceSQLStringModel) {
        (self.id.0, self.path@)
    }
}

impl Codec for Artwork {
    open spec fn spec_bytes(v: (u32, DeviceSQLStringModel)) -> Seq<u8> {
        <ArtworkFields as Codec>::spec_bytes(v)
    }

    open spec fn spec_parse(s: Seq<u8>, p: int) -> Option<((u32, DeviceSQLStringModel), int)> {
        <ArtworkFields as Codec>::spec_parse(s, p)
    }

    open spec fn spec_wf(v: (u32, DeviceSQLStringModel)) -> bool {
        <ArtworkFields as Codec>::spec_wf(v)
    }

    open spec fn spec_writable(v: (u32, DeviceSQLStringModel)) -> bool {
        <ArtworkFields as Codec>::spec_writable(v)
    }

    proof fn lemma_parse_bounds(s: Seq<u8>, p: int) {
        <ArtworkFields as Codec>::lemma_parse_bounds(s, p);
    }

    proof fn lemma_parse_writable(s: Seq<u8>, p: int) {
        <ArtworkFields as Codec>::lemma_parse_writable(s, p);
    }

    proof fn lemma_roundtrip(v: (u32, DeviceSQLStringModel), pre: Seq<u8>, post: Seq<u8>) {
        <ArtworkFields as Codec>::lemma_roundtrip(v, pre, post);
    }

    fn parse(data: &[u8], pos: usize) -> (r: Option<(Artwork, usize)>) {
        match <ArtworkFields as Codec>::parse(data, pos) {
            Some(((x0, x1), e)) => Some((Artwork { id: ArtworkId(x0), path: x1 }, e)),
            None => None,
        }
    }

    fn byte_len(&self) -> (r: usize) {
        self.id.0.byte_len() + (self.path.byte_len())
    }

    fn serialize(&self, out: &mut Vec<u8>) {
        self.id.0.serialize(out);
        self.path.serialize(out);
        assert(final(out)@ =~= old(out)@ + Self::spec_bytes(self@));
    }
}

/// The fields of a `Color` row in storage order.
pub type ColorFields = (u32, (u8, (ColorIndex, (u16, DeviceSQLString))));

/// Contains numeric color ID.
#[derive(Debug, PartialEq, Eq, Clone)]
pub struct Color {
    /// Unknown field.
    pub unknown1: u32,
    /// Unknown field.
    pub unknown2: u8,
    /// Numeric color ID.
    pub color: ColorIndex,
    /// Unknown field.
    pub unknown3: u16,
    /// User-defined name of the color.
    pub name: DeviceSQLString,
}

impl View for Color {
    type V = (u32, (u8, (ColorIndex, (u16, DeviceSQLStringModel))));

    open spec fn view(&self) -> (u32, (u8, (ColorIndex, (u16, DeviceSQLStringModel)))) {
        (self.unknown1, (self.unknown2, (self.color, (self.unknown3, self.name@))))
    }
}

impl Codec for Color {
    open spec fn spec_bytes(v: (u32, (u8, (ColorIndex, (u16, DeviceSQLStringModel))))) -> Seq<u8> {
        <ColorFields as Codec>::spec_bytes(v)
    }

    open spec fn spec_parse(s: Seq<u8>, p: int) -> Option<((u32, (u8, (ColorIndex, (u16, DeviceSQLStringModel)))), int)> {
        <ColorFields as Codec>::spec_parse(s, p)
    }

    open spec fn spec_wf(v: (u32, (u8, (ColorIndex, (u16, DeviceSQLStringModel))))) -> bool {
        <ColorFields as Codec>::spec_wf(v)
    }

    open spec fn spec_writable(v: (u32, (u8, (ColorIndex, (u16, DeviceSQLStringModel))))) -> bool {
        <ColorFields as Codec>::spec_writable(v)
    }

    proof fn lemma_parse_bounds(s: Seq<u8>, p: int) {
        <ColorFields as Codec>::lemma_parse_bounds(s, p);
    }

    proof fn lemma_parse_writable(s: Seq<u8>, p: int) {
        <ColorFields as Codec>::lemma_parse_writable(s, p);
    }

    proof fn lemma_roundtrip(v: (u32, (u8, (ColorIndex, (u16, DeviceSQLStringModel)))), pre: Seq<u8>, post: Seq<u8>) {
        <ColorFields as Codec>::lemma_roundtrip(v, pre, post);
    }

    fn parse(data: &[u8], pos: usize) -> (r: Option<(Color, usize)>) {
        match <ColorFields as Codec>::parse(data, pos) {
            Some(((x0, (x1, (x2, (x3, x4)))), e)) => Some((Color { unknown1: x0, unknown2: x1, color: x2, unknown3: x3, name: x4 }, e)),
            None => None,
        }
    }

    fn byte_len(&self) -> (r: usize) {
        self.unknown1.byte_len() + (self.unknown2.byte_len() + (self.color.byte_len() + (self.unknown3.byte_len() + (self.name.byte_len()))))
    }

    fn serialize(&self, out: &mut Vec<u8>) {
        self.unknown1.serialize(out);
        self.unknown2.serialize(out);
        self.color.serialize(out);
        self.unknown3.serialize(out);
        self.name.serialize(out);
        assert(final(out)@ =~= old(out)@ + Self::spec_bytes(self@));
    }
}

/// The fields of a `Genre` row in storage order.
pub type GenreFields = (u32, DeviceSQLString);

/// Represents a musical genre.
#[derive(Debug, PartialEq, Eq, Clone)]
pub struct Genre {
    /// ID of this row.
    pub id: GenreId,
    /// Name of the genre.
    pub name: DeviceSQLString,
}

impl View for Genre {
    type V = (u32, DeviceSQLStringModel);

    open spec fn view(&self) -> (u32, DeviceSQLStringModel) {
        (self.id.0, self.name@)
    }
}

impl Codec for Genre {
    open spec fn spec_bytes(v: (u32, DeviceSQLStringModel)) -> Seq<u8> {
        <GenreFields as Codec>::spec_bytes(v)
    }

    open spec fn spec_parse(s: Seq<u8>, p: int) -> Option<((u32, DeviceSQLStringModel), int)> {
        <GenreFields as Codec>::spec_parse(s, p)
    }

    open spec fn spec_wf(v: (u32, DeviceSQLStringModel)) -> bool {
        <GenreFields as Codec>::spec_wf(v)
    }

    open spec fn spec_writable(v: (u32, DeviceSQLStringModel)) -> bool {
        <GenreFields as Codec>::spec_writable(v)
    }

    proof fn lemma_parse_bounds(s: Seq<u8>, p: int) {
        <GenreFields as Codec>::lemma_parse_bounds(s, p);
    }

    proof fn lemma_parse_writable(s: Seq<u8>, p: int) {
        <GenreFields as Codec>::lemma_parse_writable(s, p);
    }

    proof fn lemma_roundtrip(v: (u32, DeviceSQLStringModel), pre: Seq<u8>, post: Seq<u8>) {
        <GenreFields as Codec>::lemma_roundtrip(v, pre, post);
    }

    fn parse(data: &[u8], pos: usize) -> (r: Option<(Genre, usize)>) {
        match <GenreFields as Codec>::parse(data, pos) {
            Some(((x0, x1), e)) => Some((Genre { id: GenreId(x0), name: x1 }, e)),
            None => None,
        }
    }

    fn byte_len(&self) -> (r: usize) {
        self.id.0.byte_len() + (self.name.byte_len())
    }

    fn serialize(&self, out: &mut Vec<u8>) {
        self.id.0.serialize(out);
        self.name.serialize(out);
        assert(final(out)@ =~= old(out)@ + Self::spec_bytes(self@));
    }
}

/// The fields of a `HistoryPlaylist` row in storage order.
pub type HistoryPlaylistFields = (u32, DeviceSQLString);

/// Represents a history playlist.
#[derive(Debug, PartialEq, Eq, Clone)]
pub struct HistoryPlaylist {
    /// ID of this row.
    pub id: HistoryPlaylistId,
    /// Name of the playlist.
    pub name: DeviceSQLString,
}

impl View for HistoryPlaylist {
    type V = (u32, DeviceSQLStringModel);

    open spec fn view(&self) -> (u32, DeviceSQLStringModel) {
        (self.id.0, self.name@)
    }
}

impl Codec for HistoryPlaylist {
    open spec fn spec_bytes(v: (u32, DeviceSQLStringModel)) -> Seq<u8> {
        <HistoryPlaylistFields as Codec>::spec_bytes(v)
    }

    open spec fn spec_parse(s: Seq<u8>, p: int) -> Option<((u32, DeviceSQLStringModel), int)> {
        <HistoryPlaylistFields as Codec>::spec_parse(s, p)
    }

    open spec fn spec_wf(v: (u32, DeviceSQLStringModel)) -> bool {
        <HistoryPlaylistFields as Codec>::spec_wf(v)
    }

    open spec fn spec_writable(v: (u32, DeviceSQLStringModel)) -> bool {
        <HistoryPlaylistFields as Codec>::spec_writable(v)
    }

    proof fn lemma_parse_bounds(s: Seq<u8>, p: int) {
        <HistoryPlaylistFields as Codec>::lemma_parse_bounds(s, p);
    }

    proof fn lemma_parse_writable(s: Seq<u8>, p: int) {
        <HistoryPlaylistFields as Codec>::lemma_parse_writable(s, p);
    }

    proof fn lemma_roundtrip(v: (u32, DeviceSQLStringModel), pre: Seq<u8>, post: Seq<u8>) {
        <HistoryPlaylistFields as Codec>::lemma_roundtrip(v, pre, post);
    }

    fn parse(data: &[u8], pos: usize) -> (r: Option<(HistoryPlaylist, usize)>) {
        match <HistoryPlaylistFields as Codec>::parse(data, pos) {
            Some(((x0, x1), e)) => Some((HistoryPlaylist { id: HistoryPlaylistId(x0), name: x1 }, e)),
            None => None,
        }
    }

    fn byte_len(&self) -> (r: usize) {
        self.id.0.byte_len() + (self.name.byte_len())
    }

    fn serialize(&self, out: &mut Vec<u8>) {
        self.id.0.serialize(out);
        self.name.serialize(out);
        assert(final(out)@ =~= old(out)@ + Self::spec_bytes(self@));
    }
}

/// The fields of a `HistoryEntry` row in storage order.
pub type HistoryEntryFields = (u32, (u32, u32));

/// Represents a track entry in a history playlist.
#[derive(Debug, PartialEq, Eq, Clone)]
pub struct HistoryEntry {
    /// ID of the track played at this position in the playlist.
    pub track_id: TrackId,
    /// ID of the history playlist.
    pub playlist_id: HistoryPlaylistId,
    /// Position within the playlist.
    pub entry_index: u32,
}

impl View for HistoryEntry {
    type V = (u32, (u32, u32));

    open spec fn view(&self) -> (u32, (u32, u32)) {
        (self.track_id.0, (self.playlist_id.0, self.entry_index))
    }
}

impl Codec for HistoryEntry {
    open spec fn spec_bytes(v: (u32, (u32, u32))) -> Seq<u8> {
        <HistoryEntryFields as Codec>::spec_bytes(v)
    }

    open spec fn spec_parse(s: Seq<u8>, p: int) -> Option<((u32, (u32, u32)), int)> {
        <HistoryEntryFields as Codec>::spec_parse(s, p)
    }

    open spec fn spec_wf(v: (u32, (u32, u32))) -> bool {
        <HistoryEntryFields as Codec>::spec_wf(v)
    }

    open spec fn spec_writable(v: (u32, (u32, u32))) -> bool {
        <HistoryEntryFields as Codec>::spec_writable(v)
    }

    proof fn lemma_parse_bounds(s: Seq<u8>, p: int) {
        <HistoryEntryFields as Codec>::lemma_parse_bounds(s, p);
    }

    proof fn lemma_parse_writable(s: Seq<u8>, p: int) {
        <HistoryEntryFields as Codec>::lemma_parse_writable(s, p);
    }

    proof fn lemma_roundtrip(v: (u32, (u32, u32)), pre: Seq<u8>, post: Seq<u8>) {
        <HistoryEntryFields as Codec>::lemma_roundtrip(v, pre, post);
    }

    fn parse(data: &[u8], pos: usize) -> (r: Option<(HistoryEntry, usize)>) {
        match <HistoryEntryFields as Codec>::parse(data, pos) {
            Some(((x0, (x1, x2)), e)) => Some((HistoryEntry { track_id: TrackId(x0), playlist_id: HistoryPlaylistId(x1), entry_index: x2 }, e)),
            None => None,
        }
    }

    fn byte_len(&self) -> (r: usize) {
        self.track_id.0.byte_len() + (self.playlist_id.0.byte_len() + (self.entry_index.byte_len()))
    }

    fn serialize(&self, out: &mut Vec<u8>) {
        self.track_id.0.serialize(out);
        self.playlist_id.0.serialize(out);
        self.entry_index.serialize(out);
        assert(final(out)@ =~= old(out)@ + Self::spec_bytes(self@));
    }
}

/// The fields of a `History` row in storage order.
pub type HistoryFields = (u16, (u16, (u32, (Magic32<0>, (DeviceSQLString, (Magic16<0x1E19>, (DeviceSQLString, DeviceSQLString)))))));

/// Represents a sync log row, written at every synchronization event.
#[derive(Debug, PartialEq, Eq, Clone)]
pub struct History {
    /// Subtype field, usually `0x0280`.
    pub subtype: Subtype,
    /// Unknown field, presumably the `index_shift` of other row types.
    pub index_shift: u16,
    /// Tracks present in the database after this sync event.
    pub num_tracks: u32,
    /// Sync date, e.g. "2022-02-02".
    pub date: DeviceSQLString,
    /// Format/protocol version string, "1000" in all known exports.
    pub version: DeviceSQLString,
    /// Device or backup label. Can be empty.
    pub label: DeviceSQLString,
}

impl View for History {
    type V = (u16, (u16, (u32, ((), (DeviceSQLStringModel, ((), (DeviceSQLStringModel, DeviceSQLStringModel)))))));

    open spec fn view(&self) -> (u16, (u16, (u32, ((), (DeviceSQLStringModel, ((), (DeviceSQLStringModel, DeviceSQLStringModel))))))) {
        (self.subtype.0, (self.index_shift, (self.num_tracks, ((), (self.date@, ((), (self.version@, self.label@)))))))
    }
}

impl Codec for History {
    open spec fn spec_bytes(v: (u16, (u16, (u32, ((), (DeviceSQLStringModel, ((), (DeviceSQLStringModel, DeviceSQLStringModel)))))))) -> Seq<u8> {
        <HistoryFields as Codec>::spec_bytes(v)
    }

    open spec fn spec_parse(s: Seq<u8>, p: int) -> Option<((u16, (u16, (u32, ((), (DeviceSQLStringModel, ((), (DeviceSQLStringModel, DeviceSQLStringModel))))))), int)> {
        <HistoryFields as Codec>::spec_parse(s, p)
    }

    open spec fn spec_wf(v: (u16, (u16, (u32, ((), (DeviceSQLStringModel, ((), (DeviceSQLStringModel, DeviceSQLStringModel)))))))) -> bool {
        <HistoryFields as Codec>::spec_wf(v)
    }

    open spec fn spec_writable(v: (u16, (u16, (u32, ((), (DeviceSQLStringModel, ((), (DeviceSQLStringModel, DeviceSQLStringModel)))))))) -> bool {
        <HistoryFields as Codec>::spec_writable(v)
    }

    proof fn lemma_parse_bounds(s: Seq<u8>, p: int) {
        <HistoryFields as Codec>::lemma_parse_bounds(s, p);
    }

    proof fn lemma_parse_writable(s: Seq<u8>, p: int) {
        <HistoryFields as Codec>::lemma_parse_writable(s, p);
    }

    proof fn lemma_roundtrip(v: (u16, (u16, (u32, ((), (DeviceSQLStringModel, ((), (DeviceSQLStringModel, DeviceSQLStringModel))))))), pre: Seq<u8>, post: Seq<u8>) {
        <HistoryFields as Codec>::lemma_roundtrip(v, pre, post);
    }

    fn parse(data: &[u8], pos: usize) -> (r: Option<(History, usize)>) {
        match <HistoryFields as Codec>::parse(data, pos) {
            Some(((x0, (x1, (x2, (_, (x4, (_, (x6, x7))))))), e)) => Some((History { subtype: Subtype(x0), index_shift: x1, num_tracks: x2, date: x4, version: x6, label: x7 }, e)),
            None => None,
        }
    }

    fn byte_len(&self) -> (r: usize) {
        self.subtype.0.byte_len() + (self.index_shift.byte_len() + (self.num_tracks.byte_len() + (4 + (self.date.byte_len() + (2 + (self.version.byte_len() + (self.label.byte_len())))))))
    }

    fn serialize(&self, out: &mut Vec<u8>) {
        self.subtype.0.serialize(out);
        self.index_shift.serialize(out);
        self.num_tracks.serialize(out);
        Magic32::<0>.serialize(out);
        self.date.serialize(out);
        Magic16::<0x1E19>.serialize(out);
        self.version.serialize(out);
        self.label.serialize(out);
        assert(final(out)@ =~= old(out)@ + Self::spec_bytes(self@));
    }
}

/// The fields of a `Key` row in storage order.
pub type KeyFields = (u32, (u32, DeviceSQLString));

/// Represents a musical key.
#[derive(Debug, PartialEq, Eq, Clone)]
pub struct Key {
    /// ID of this row.
    pub id: KeyId,
    /// Apparently a second copy of the row ID.
    pub id2: u32,
    /// Name of the key.
    pub name: DeviceSQLString,
}

impl View for Key {
    type V = (u32, (u32, DeviceSQLStringModel));

    open spec fn view(&self) -> (u32, (u32, DeviceSQLStringModel)) {
        (self.id.0, (self.id2, self.name@))
    }
}

impl Codec for Key {
    open spec fn spec_bytes(v: (u32, (u32, DeviceSQLStringModel))) -> Seq<u8> {
        <KeyFields as Codec>::spec_bytes(v)
    }

    open spec fn spec_parse(s: Seq<u8>, p: int) -> Option<((u32, (u32, DeviceSQLStringModel)), int)> {
        <KeyFields as Codec>::spec_parse(s, p)
    }

    open spec fn spec_wf(v: (u32, (u32, DeviceSQLStringModel))) -> bool {
        <KeyFields as Codec>::spec_wf(v)
    }

    open spec fn spec_writable(v: (u32, (u32, DeviceSQLStringModel))) -> bool {
        <KeyFields as Codec>::spec_writable(v)
    }

    proof fn lemma_parse_bounds(s: Seq<u8>, p: int) {
        <KeyFields as Codec>::lemma_parse_bounds(s, p);
    }

    proof fn lemma_parse_writable(s: Seq<u8>, p: int) {
        <KeyFields as Codec>::lemma_parse_writable(s, p);
    }

    proof fn lemma_roundtrip(v: (u32, (u32, DeviceSQLStringModel)), pre: Seq<u8>, post: Seq<u8>) {
        <KeyFields as Codec>::lemma_roundtrip(v, pre, post);
    }

    fn parse(data: &[u8], pos: usize) -> (r: Option<(Key, usize)>) {
        match <KeyFields as Codec>::parse(data, pos) {
            Some(((x0, (x1, x2)), e)) => Some((Key { id: KeyId(x0), id2: x1, name: x2 }, e)),
            None => None,
        }
    }

    fn byte_len(&self) -> (r: usize) {
        self.id.0.byte_len() + (self.id2.byte_len() + (self.name.byte_len()))
    }

    fn serialize(&self, out: &mut Vec<u8>) {
        self.id.0.serialize(out);
        self.id2.serialize(out);
        self.name.serialize(out);
        assert(final(out)@ =~= old(out)@ + Self::spec_bytes(self@));
    }
}

/// The fields of a `Label` row in storage order.
pub type LabelFields = (u32, DeviceSQLString);

/// Represents a record label.
#[derive(Debug, PartialEq, Eq, Clone)]
pub struct Label {
    /// ID of this row.
    pub id: LabelId,
    /// Name of the record label.
    pub name: DeviceSQLString,
}

impl View for Label {
    type V = (u32, DeviceSQLStringModel);

    open spec fn view(&self) -> (u32, DeviceSQLStringModel) {
        (self.id.0, self.name@)
    }
}

impl Codec for Label {
    open spec fn spec_bytes(v: (u32, DeviceSQLStringModel)) -> Seq<u8> {
        <LabelFields as Codec>::spec_bytes(v)
    }

    open spec fn spec_parse(s: Seq<u8>, p: int) -> Option<((u32, DeviceSQLStringModel), int)> {
        <LabelFields as Codec>::spec_parse(s, p)
    }

    open spec fn spec_wf(v: (u32, DeviceSQLStringModel)) -> bool {
        <LabelFields as Codec>::spec_wf(v)
    }

    open spec fn spec_writable(v: (u32, DeviceSQLStringModel)) -> bool {
        <LabelFields as Codec>::spec_writable(v)
    }

    proof fn lemma_parse_bounds(s: Seq<u8>, p: int) {
        <LabelFields as Codec>::lemma_parse_bounds(s, p);
    }

    proof fn lemma_parse_writable(s: Seq<u8>, p: int) {
        <LabelFields as Codec>::lemma_parse_writable(s, p);
    }

    proof fn lemma_roundtrip(v: (u32, DeviceSQLStringModel), pre: Seq<u8>, post: Seq<u8>) {
        <LabelFields as Codec>::lemma_roundtrip(v, pre, post);
    }

    fn parse(data: &[u8], pos: usize) -> (r: Option<(Label, usize)>) {
        match <LabelFields as Codec>::parse(data, pos) {
            Some(((x0, x1), e)) => Some((Label { id: LabelId(x0), name: x1 }, e)),
            None => None,
        }
    }

    fn byte_len(&self) -> (r: usize) {
        self.id.0.byte_len() + (self.name.byte_len())
    }

    fn serialize(&self, out: &mut Vec<u8>) {
        self.id.0.serialize(out);
        self.name.serialize(out);
        assert(final(out)@ =~= old(out)@ + Self::spec_bytes(self@));
    }
}

/// The fields of a `PlaylistTreeNode` row in storage order.
pub type PlaylistTreeNodeFields = (u32, (u32, (u32, (u32, (u32, DeviceSQLString)))));

/// Represents a node in the playlist tree (either a folder or a playlist).
#[derive(Debug, PartialEq, Eq, Clone)]
pub struct PlaylistTreeNode {
    /// ID of the parent row of this row (a folder).
    pub parent_id: PlaylistTreeNodeId,
    /// Unknown field.
    pub unknown: u32,
    /// Sort order indicator.
    pub sort_order: u32,
    /// ID of this row.
    pub id: PlaylistTreeNodeId,
    /// Non-zero if the node is a folder.
    pub node_is_folder: u32,
    /// Name of this node, as shown when navigating the menu.
    pub name: DeviceSQLString,
}

impl View for PlaylistTreeNode {
    type V = (u32, (u32, (u32, (u32, (u32, DeviceSQLStringModel)))));

    open spec fn view(&self) -> (u32, (u32, (u32, (u32, (u32, DeviceSQLStringModel))))) {
        (self.parent_id.0, (self.unknown, (self.sort_order, (self.id.0, (self.node_is_folder, self.name@)))))
    }
}

impl Codec for PlaylistTreeNode {
    open spec fn spec_bytes(v: (u32, (u32, (u32, (u32, (u32, DeviceSQLStringModel)))))) -> Seq<u8> {
        <PlaylistTreeNodeFields as Codec>::spec_bytes(v)
    }

    open spec fn spec_parse(s: Seq<u8>, p: int) -> Option<((u32, (u32, (u32, (u32, (u32, DeviceSQLStringModel))))), int)> {
        <PlaylistTreeNodeFields as Codec>::spec_parse(s, p)
    }

    open spec fn spec_wf(v: (u32, (u32, (u32, (u32, (u32, DeviceSQLStringModel)))))) -> bool {
        <PlaylistTreeNodeFields as Codec>::spec_wf(v)
    }

    open spec fn spec_writable(v: (u32, (u32, (u32, (u32, (u32, DeviceSQLStringModel)))))) -> bool {
        <PlaylistTreeNodeFields as Codec>::spec_writable(v)
    }

    proof fn lemma_parse_bounds(s: Seq<u8>, p: int) {
        <PlaylistTreeNodeFields as Codec>::lemma_parse_bounds(s, p);
    }

    proof fn lemma_parse_writable(s: Seq<u8>, p: int) {
        <PlaylistTreeNodeFields as Codec>::lemma_parse_writable(s, p);
    }

    proof fn lemma_roundtrip(v: (u32, (u32, (u32, (u32, (u32, DeviceSQLStringModel))))), pre: Seq<u8>, post: Seq<u8>) {
        <PlaylistTreeNodeFields as Codec>::lemma_roundtrip(v, pre, post);
    }

    fn parse(data: &[u8], pos: usize) -> (r: Option<(PlaylistTreeNode, usize)>) {
        match <PlaylistTreeNodeFields as Codec>::parse(data, pos) {
            Some(((x0, (x1, (x2, (x3, (x4, x5))))), e)) => Some((PlaylistTreeNode { parent_id: PlaylistTreeNodeId(x0), unknown: x1, sort_order: x2, id: PlaylistTreeNodeId(x3), node_is_folder: x4, name: x5 }, e)),
            None => None,
        }
    }

    fn byte_len(&self) -> (r: usize) {
        self.parent_id.0.byte_len() + (self.unknown.byte_len() + (self.sort_order.byte_len() + (self.id.0.byte_len() + (self.node_is_folder.byte_len() + (self.name.byte_len())))))
    }

    fn serialize(&self, out: &mut Vec<u8>) {
        self.parent_id.0.serialize(out);
        self.unknown.serialize(out);
        self.sort_order.serialize(out);
        self.id.0.serialize(out);
        self.node_is_folder.serialize(out);
        self.name.serialize(out);
        assert(final(out)@ =~= old(out)@ + Self::spec_bytes(self@));
    }
}

/// The fields of a `PlaylistEntry` row in storage order.
pub type PlaylistEntryFields = (u32, (u32, u32));

/// Represents a track entry in a playlist.
#[derive(Debug, PartialEq, Eq, Clone)]
pub struct PlaylistEntry {
    /// Position within the playlist.
    pub entry_index: u32,
    /// ID of the track played at this position in the playlist.
    pub track_id: TrackId,
    /// ID of the playlist.
    pub playlist_id: PlaylistTreeNodeId,
}

impl View for PlaylistEntry {
    type V = (u32, (u32, u32));

    open spec fn view(&self) -> (u32, (u32, u32)) {
        (self.entry_index, (self.track_id.0, self.playlist_id.0))
    }
}

impl Codec for PlaylistEntry {
    open spec fn spec_bytes(v: (u32, (u32, u32))) -> Seq<u8> {
        <PlaylistEntryFields as Codec>::spec_bytes(v)
    }

    open spec fn spec_parse(s: Seq<u8>, p: int) -> Option<((u32, (u32, u32)), int)> {
        <PlaylistEntryFields as Codec>::spec_parse(s, p)
    }

    open spec fn spec_wf(v: (u32, (u32, u32))) -> bool {
        <PlaylistEntryFields as Codec>::spec_wf(v)
    }

    open spec fn spec_writable(v: (u32, (u32, u32))) -> bool {
        <PlaylistEntryFields as Codec>::spec_writable(v)
    }

    proof fn lemma_parse_bounds(s: Seq<u8>, p: int) {
        <PlaylistEntryFields as Codec>::lemma_parse_bounds(s, p);
    }

    proof fn lemma_parse_writable(s: Seq<u8>, p: int) {
        <PlaylistEntryFields as Codec>::lemma_parse_writable(s, p);
    }

    proof fn lemma_roundtrip(v: (u32, (u32, u32)), pre: Seq<u8>, post: Seq<u8>) {
        <PlaylistEntryFields as Codec>::lemma_roundtrip(v, pre, post);
    }

    fn parse(data: &[u8], pos: usize) -> (r: Option<(PlaylistEntry, usize)>) {
        match <PlaylistEntryFields as Codec>::parse(data, pos) {
            Some(((x0, (x1, x2)), e)) => Some((PlaylistEntry { entry_index: x0, track_id: TrackId(x1), playlist_id: PlaylistTreeNodeId(x2) }, e)),
            None => None,
        }
    }

    fn byte_len(&self) -> (r: usize) {
        self.entry_index.byte_len() + (self.track_id.0.byte_len() + (self.playlist_id.0.byte_len()))
    }

    fn serialize(&self, out: &mut Vec<u8>) {
        self.entry_index.serialize(out);
        self.track_id.0.serialize(out);
        self.playlist_id.0.serialize(out);
        assert(final(out)@ =~= old(out)@ + Self::spec_bytes(self@));
    }
}

/// The fields of a `ColumnEntry` row in storage order.
pub type ColumnEntryFields = (u16, (u16, DeviceSQLString));

/// Contains a metadata category by which tracks can be browsed on CDJs.
#[derive(Debug, PartialEq, Eq, Clone)]
pub struct ColumnEntry {
    /// Possibly the primary key.
    pub id: u16,
    /// Unknown field, maybe a bitfield of sort order and displayed columns.
    pub unknown0: u16,
    /// Name of the category, framed by the annotation characters U+FFFA and U+FFFB.
    pub column_name: DeviceSQLString,
}

impl View for ColumnEntry {
    type V = (u16, (u16, DeviceSQLStringModel));

    open spec fn view(&self) -> (u16, (u16, DeviceSQLStringModel)) {
        (self.id, (self.unknown0, self.column_name@))
    }
}

impl Codec for ColumnEntry {
    open spec fn spec_bytes(v: (u16, (u16, DeviceSQLStringModel))) -> Seq<u8> {
        <ColumnEntryFields as Codec>::spec_bytes(v)
    }

    open spec fn spec_parse(s: Seq<u8>, p: int) -> Option<((u16, (u16, DeviceSQLStringModel)), int)> {
        <ColumnEntryFields as Codec>::spec_parse(s, p)
    }

    open spec fn spec_wf(v: (u16, (u16, DeviceSQLStringModel))) -> bool {
        <ColumnEntryFields as Codec>::spec_wf(v)
    }

    open spec fn spec_writable(v: (u16, (u16, DeviceSQLStringModel))) -> bool {
        <ColumnEntryFields as Codec>::spec_writable(v)
    }

    proof fn lemma_parse_bounds(s: Seq<u8>, p: int) {
        <ColumnEntryFields as Codec>::lemma_parse_bounds(s, p);
    }

    proof fn lemma_parse_writable(s: Seq<u8>, p: int) {
        <ColumnEntryFields as Codec>::lemma_parse_writable(s, p);
    }

    proof fn lemma_roundtrip(v: (u16, (u16, DeviceSQLStringModel)), pre: Seq<u8>, post: Seq<u8>) {
        <ColumnEntryFields as Codec>::lemma_roundtrip(v, pre, post);
    }

    fn parse(data: &[u8], pos: usize) -> (r: Option<(ColumnEntry, usize)>) {
        match <ColumnEntryFields as Codec>::parse(data, pos) {
            Some(((x0, (x1, x2)), e)) => Some((ColumnEntry { id: x0, unknown0: x1, column_name: x2 }, e)),
            None => None,
        }
    }

    fn byte_len(&self) -> (r: usize) {
        self.id.byte_len() + (self.unknown0.byte_len() + (self.column_name.byte_len()))
    }

    fn serialize(&self, out: &mut Vec<u8>) {
        self.id.serialize(out);
        self.unknown0.serialize(out);
        self.column_name.serialize(out);
        assert(final(out)@ =~= old(out)@ + Self::spec_bytes(self@));
    }
}

/// The fields of a `Menu` row in storage order.
pub type MenuFields = (u16, (u16, (u8, (MenuVisibility, u16))));

/// Defines one of the active menus on the CDJ.
#[derive(Debug, PartialEq, Eq, Clone)]
pub struct Menu {
    /// Determines the label (e.g. "ARTIST"); matches IDs in the column table.
    pub category_id: u16,
    /// Points to the data source, i.e. the list of artists is 0x02.
    pub content_pointer: u16,
    /// Unknown field.
    pub unknown: u8,
    /// Visibility state of the menu item.
    pub visibility: MenuVisibility,
    /// Visual position in the menu list; 0 places the item at the top.
    pub sort_order: u16,
}

impl View for Menu {
    type V = (u16, (u16, (u8, (MenuVisibility, u16))));

    open spec fn view(&self) -> (u16, (u16, (u8, (MenuVisibility, u16)))) {
        (self.category_id, (self.content_pointer, (self.unknown, (self.visibility, self.sort_order))))
    }
}

impl Codec for Menu {
    open spec fn spec_bytes(v: (u16, (u16, (u8, (MenuVisibility, u16))))) -> Seq<u8> {
        <MenuFields as Codec>::spec_bytes(v)
    }

    open spec fn spec_parse(s: Seq<u8>, p: int) -> Option<((u16, (u16, (u8, (MenuVisibility, u16)))), int)> {
        <MenuFields as Codec>::spec_parse(s, p)
    }

    open spec fn spec_wf(v: (u16, (u16, (u8, (MenuVisibility, u16))))) -> bool {
        <MenuFields as Codec>::spec_wf(v)
    }

    open spec fn spec_writable(v: (u16, (u16, (u8, (MenuVisibility, u16))))) -> bool {
        <MenuFields as Codec>::spec_writable(v)
    }

    proof fn lemma_parse_bounds(s: Seq<u8>, p: int) {
        <MenuFields as Codec>::lemma_parse_bounds(s, p);
    }

    proof fn lemma_parse_writable(s: Seq<u8>, p: int) {
        <MenuFields as Codec>::lemma_parse_writable(s, p);
    }

    proof fn lemma_roundtrip(v: (u16, (u16, (u8, (MenuVisibility, u16)))), pre: Seq<u8>, post: Seq<u8>) {
        <MenuFields as Codec>::lemma_roundtrip(v, pre, post);
    }

    fn parse(data: &[u8], pos: usize) -> (r: Option<(Menu, usize)>) {
        match <MenuFields as Codec>::parse(data, pos) {
            Some(((x0, (x1, (x2, (x3, x4)))), e)) => Some((Menu { category_id: x0, content_pointer: x1, unknown: x2, visibility: x3, sort_order: x4 }, e)),
            None => None,
        }
    }

    fn byte_len(&self) -> (r: usize) {
        self.category_id.byte_len() + (self.content_pointer.byte_len() + (self.unknown.byte_len() + (self.visibility.byte_len() + (self.sort_order.byte_len()))))
    }

    fn serialize(&self, out: &mut Vec<u8>) {
        self.category_id.serialize(out);
        self.content_pointer.serialize(out);
        self.unknown.serialize(out);
        self.visibility.serialize(out);
        self.sort_order.serialize(out);
        assert(final(out)@ =~= old(out)@ + Self::spec_bytes(self@));
    }
}

/// A trailing name field at the end of a row, used for album and artist names.
#[derive(Debug, PartialEq, Eq, Clone)]
pub struct TrailingName {
    /// The name at the end of the row.
    pub name: DeviceSQLString,
}

impl OffsetArrayItems<1> for TrailingName {
    type Item = DeviceSQLString;

    open spec fn spec_items(&self) -> Seq<DeviceSQLStringModel> {
        seq![self.name@]
    }

    fn as_items(&self) -> (r: Vec<&DeviceSQLString>) {
        let mut v: Vec<&DeviceSQLString> = Vec::new();
        v.push(&self.name);
        v
    }

    fn from_items(items: Vec<DeviceSQLString>) -> (r: TrailingName) {
        let ghost all = items@;
        let mut items = items;
        let name = items.pop().unwrap();
        assert(name == all[0]);
        TrailingName { name }
    }
}

/// String fields stored via the offset table in track rows.
#[derive(Debug, PartialEq, Eq, Clone)]
pub struct TrackStrings {
    /// International Standard Recording Code (ISRC), in mangled format.
    pub isrc: DeviceSQLString,
    /// Lyricist of the track.
    pub lyricist: DeviceSQLString,
    /// Unknown string field containing a number; increments when the track is exported or modified.
    pub unknown_string2: DeviceSQLString,
    /// Unknown string field containing a number.
    pub unknown_string3: DeviceSQLString,
    /// Unknown string field.
    pub unknown_string4: DeviceSQLString,
    /// Track "message", a field in the Rekordbox UI.
    pub message: DeviceSQLString,
    /// "Publish track information" in Rekordbox, either "ON" or empty.
    pub publish_track_information: DeviceSQLString,
    /// Whether hotcues should be autoloaded, either "ON" or empty.
    pub autoload_hotcues: DeviceSQLString,
    /// Unknown string field (usually empty).
    pub unknown_string5: DeviceSQLString,
    /// Unknown string field (usually empty).
    pub unknown_string6: DeviceSQLString,
    /// Date when the track was added to the collection (YYYY-MM-DD).
    pub date_added: DeviceSQLString,
    /// Date when the track was released (YYYY-MM-DD).
    pub release_date: DeviceSQLString,
    /// Name of the remix (if any).
    pub mix_name: DeviceSQLString,
    /// Unknown string field (usually empty).
    pub unknown_string7: DeviceSQLString,
    /// File path of the track analysis file.
    pub analyze_path: DeviceSQLString,
    /// Date when the track analysis was performed (YYYY-MM-DD).
    pub analyze_date: DeviceSQLString,
    /// Track comment.
    pub comment: DeviceSQLString,
    /// Track title.
    pub title: DeviceSQLString,
    /// Unknown string field (usually empty).
    pub unknown_string8: DeviceSQLString,
    /// Name of the file.
    pub filename: DeviceSQLString,
    /// Path of the file.
    pub file_path: DeviceSQLString,
}

impl OffsetArrayItems<21> for TrackStrings {
    type Item = DeviceSQLString;

    open spec fn spec_items(&self) -> Seq<DeviceSQLStringModel> {
        seq![self.isrc@, self.lyricist@, self.unknown_string2@, self.unknown_string3@, self.unknown_string4@, self.message@, self.publish_track_information@, self.autoload_hotcues@, self.unknown_string5@, self.unknown_string6@, self.date_added@, self.release_date@, self.mix_name@, self.unknown_string7@, self.analyze_path@, self.analyze_date@, self.comment@, self.title@, self.unknown_string8@, self.filename@, self.file_path@]
    }

    fn as_items(&self) -> (r: Vec<&DeviceSQLString>) {
        let mut v: Vec<&DeviceSQLString> = Vec::new();
        v.push(&self.isrc);
        v.push(&self.lyricist);
        v.push(&self.unknown_string2);
        v.push(&self.unknown_string3);
        v.push(&self.unknown_string4);
        v.push(&self.message);
        v.push(&self.publish_track_information);
        v.push(&self.autoload_hotcues);
        v.push(&self.unknown_string5);
        v.push(&self.unknown_string6);
        v.push(&self.date_added);
        v.push(&self.release_date);
        v.push(&self.mix_name);
        v.push(&self.unknown_string7);
        v.push(&self.analyze_path);
        v.push(&self.analyze_date);
        v.push(&self.comment);
        v.push(&self.title);
        v.push(&self.unknown_string8);
        v.push(&self.filename);
        v.push(&self.file_path);
        v
    }

    fn from_items(items: Vec<DeviceSQLString>) -> (r: TrackStrings) {
        let ghost all = items@;
        let mut items = items;
        let file_path = items.pop().unwrap();
        assert(file_path == all[20]);
        let filename = items.pop().unwrap();
        assert(filename == all[19]);
        let unknown_string8 = items.pop().unwrap();
        assert(unknown_string8 == all[18]);
        let title = items.pop().unwrap();
        assert(title == all[17]);
        let comment = items.pop().unwrap();
        assert(comment == all[16]);
        let analyze_date = items.pop().unwrap();
        assert(analyze_date == all[15]);
        let analyze_path = items.pop().unwrap();
        assert(analyze_path == all[14]);
        let unknown_string7 = items.pop().unwrap();
        assert(unknown_string7 == all[13]);
        let mix_name = items.pop().unwrap();
        assert(mix_name == all[12]);
        let release_date = items.pop().unwrap();
        assert(release_date == all[11]);
        let date_added = items.pop().unwrap();
        assert(date_added == all[10]);
        let unknown_string6 = items.pop().unwrap();
        assert(unknown_string6 == all[9]);
        let unknown_string5 = items.pop().unwrap();
        assert(unknown_string5 == all[8]);
        let autoload_hotcues = items.pop().unwrap();
        assert(autoload_hotcues == all[7]);
        let publish_track_information = items.pop().unwrap();
        assert(publish_track_information == all[6]);
        let message = items.pop().unwrap();
        assert(message == all[5]);
        let unknown_string4 = items.pop().unwrap();
        assert(unknown_string4 == all[4]);
        let unknown_string3 = items.pop().unwrap();
        assert(unknown_string3 == all[3]);
        let unknown_string2 = items.pop().unwrap();
        assert(unknown_string2 == all[2]);
        let lyricist = items.pop().unwrap();
        assert(lyricist == all[1]);
        let isrc = items.pop().unwrap();
        assert(isrc == all[0]);
        TrackStrings { isrc, lyricist, unknown_string2, unknown_string3, unknown_string4, message, publish_track_information, autoload_hotcues, unknown_string5, unknown_string6, date_added, release_date, mix_name, unknown_string7, analyze_path, analyze_date, comment, title, unknown_string8, filename, file_path }
    }
}

/// The fixed-size fields of a `Album` row in storage order.
pub type AlbumHead = (u16, (u16, (u32, (u32, (u32, u32)))));

/// Contains the album name, along with an ID of the corresponding artist.
#[derive(Debug, PartialEq, Eq, Clone)]
pub struct Album {
    /// Unknown field, usually `0x80`; decides the size of the name offset.
    pub subtype: Subtype,
    /// Unknown field, called `index_shift`; appears to always be 0x20 * row index.
    pub index_shift: u16,
    /// Unknown field.
    pub unknown2: u32,
    /// ID of the artist row associated with this row.
    pub artist_id: ArtistId,
    /// ID of this row.
    pub id: AlbumId,
    /// Unknown field.
    pub unknown3: u32,
    /// The offset of the album name at the end of this row.
    pub offsets: OffsetArrayContainer<TrailingName, 1>,
}

impl Album {
    /// Size of the fixed-size fields, where the offsets begin.
    pub const HEAD_SIZE: usize = 20;

    /// The fixed-size fields, as numbers.
    pub open spec fn spec_head(&self) -> <AlbumHead as View>::V {
        (self.subtype.0, (self.index_shift, (self.unknown2, (self.artist_id.0, (self.id.0, self.unknown3)))))
    }

    /// `self` is the row decoded at byte `p` of `s`.
    pub open spec fn spec_read(&self, s: Seq<u8>, p: int) -> bool {
        &&& <AlbumHead as Codec>::spec_parse(s, p) == Some((self.spec_head(), p + 20))
        &&& self.offsets.offsets.spec_size() == self.subtype.spec_offset_size()
        &&& OffsetArrayContainer::<TrailingName, 1>::spec_parse(s, p + 20, 20, self.subtype.spec_offset_size()) == Some(
            (self.offsets.offsets.spec_offsets(), self.offsets.inner.spec_items()),
        )
    }

    /// A row of this type decodes at byte `p` of `s`.
    pub open spec fn spec_readable(s: Seq<u8>, p: int) -> bool {
        match <AlbumHead as Codec>::spec_parse(s, p) {
            Some((h, e)) => OffsetArrayContainer::<TrailingName, 1>::spec_parse(s, e, 20, Subtype(h.0).spec_offset_size()) is Some,
            None => false,
        }
    }

    /// `buf` after writing the row at `p`: the fixed-size fields, then the offsets and strings.
    pub open spec fn spec_write(&self, buf: Seq<u8>, p: int) -> Seq<u8> {
        self.offsets.spec_write(write_at(buf, p, <AlbumHead as Codec>::spec_bytes(self.spec_head())), p + 20, 20)
    }

    /// Number of bytes the row takes in a page heap.
    pub open spec fn spec_heap_bytes(&self) -> int {
        20 + self.offsets.spec_heap_bytes()
    }

    /// Every byte that writing the row at `p` writes has an address that a
    /// `usize` can hold.
    pub open spec fn spec_fits_memory(&self, p: int) -> bool {
        &&& p + 20 <= usize::MAX
        &&& self.offsets.spec_fits_memory(p + 20, 20)
    }

    /// The fields and the name of the row can be encoded and decode back to
    /// themselves.
    pub open spec fn spec_wf(&self) -> bool {
        &&& <AlbumHead as Codec>::spec_wf(self.spec_head())
        &&& self.offsets.spec_items_wf()
    }

    /// The name lies after the offsets.
    pub open spec fn spec_laid_out(&self) -> bool {
        self.offsets.spec_laid_out(20)
    }

    /// Every byte that writing the row at `p` writes lies from `lo` up to `hi`.
    pub open spec fn spec_within(&self, p: int, lo: int, hi: int) -> bool {
        &&& lo <= p
        &&& p + 20 <= hi
        &&& self.offsets.spec_within(p + 20, 20, lo, hi)
    }

    /// `s` holds the fields, offsets and strings of the row where writing it
    /// at `p` puts them.
    pub open spec fn spec_held(&self, s: Seq<u8>, p: int) -> bool {
        &&& holds_at(s, p, <AlbumHead as Codec>::spec_bytes(self.spec_head()))
        &&& self.offsets.spec_held(s, p + 20, 20)
    }

    /// After writing the row at `p`, its parts are held where they were
    /// written, where its strings lie after its offsets without clashing.
    pub proof fn lemma_write_held(&self, buf: Seq<u8>, p: int)
        requires
            0 <= p,
            self.spec_laid_out(),
        ensures
            self.spec_held(self.spec_write(buf, p), p),
    {
        let hb = <AlbumHead as Codec>::spec_bytes(self.spec_head());
        let s1 = write_at(buf, p, hb);
        lemma_write_at_holds(buf, p, hb);
        assert(hb.len() == 20);
        self.offsets.lemma_write_keeps_before(s1, p + 20, 20, p, hb);
        self.offsets.lemma_write_held(s1, p + 20, 20);
    }

    /// The parts of a well-formed row held where writing it at `p` puts them
    /// decode to the row.
    pub proof fn lemma_held_read(&self, s: Seq<u8>, p: int)
        requires
            0 <= p,
            self.spec_held(s, p),
            self.spec_wf(),
            self.offsets.offsets.spec_size() == self.subtype.spec_offset_size(),
        ensures
            self.spec_read(s, p),
    {
        lemma_parse_held::<AlbumHead>(s, p, self.spec_head());
        assert(self.offsets.inner.spec_items().len() == 1);
        self.offsets.lemma_held_parse(s, p + 20, 20);
    }

    /// Writing the row where its bytes lie from `lo2` up to `hi2` keeps the
    /// bytes of a range that does not meet that one.
    pub proof fn lemma_write_agree(&self, buf: Seq<u8>, p: int, lo2: int, hi2: int, lo: int, hi: int)
        requires
            0 <= p,
            self.spec_within(p, lo2, hi2),
            hi2 <= lo || hi <= lo2,
            0 <= lo <= hi <= buf.len(),
        ensures
            agree_on(buf, self.spec_write(buf, p), lo, hi),
            self.spec_write(buf, p).len() >= buf.len(),
    {
        let hb = <AlbumHead as Codec>::spec_bytes(self.spec_head());
        let s1 = write_at(buf, p, hb);
        assert(hb.len() == 20);
        lemma_write_at_agree(buf, p, hb, lo, hi);
        self.offsets.lemma_write_agree(s1, p + 20, 20, lo2, hi2, lo, hi);
        lemma_agree_trans(buf, s1, self.spec_write(buf, p), lo, hi);
    }

    /// The parts of the row held within a range stay held where the bytes of
    /// that range stay.
    pub proof fn lemma_held_agree(&self, s1: Seq<u8>, s2: Seq<u8>, p: int, lo: int, hi: int)
        requires
            self.spec_held(s1, p),
            self.spec_within(p, lo, hi),
            agree_on(s1, s2, lo, hi),
        ensures
            self.spec_held(s2, p),
    {
        let hb = <AlbumHead as Codec>::spec_bytes(self.spec_head());
        assert(hb.len() == 20);
        lemma_agree_holds(s1, s2, lo, hi, p, hb);
        self.offsets.lemma_held_agree(s1, s2, p + 20, 20, lo, hi);
    }

    /// Writing the row at `p` keeps the bytes held before `p`.
    pub proof fn lemma_write_keeps_before(&self, buf: Seq<u8>, p: int, r: int, c: Seq<u8>)
        requires
            holds_at(buf, r, c),
            r + c.len() <= p,
        ensures
            holds_at(self.spec_write(buf, p), r, c),
    {
        let hb = <AlbumHead as Codec>::spec_bytes(self.spec_head());
        lemma_write_at_keeps(buf, p, hb, r, c);
        self.offsets.lemma_write_keeps_before_base(write_at(buf, p, hb), p + 20, 20, r, c);
    }

    /// Decodes the row at `pos`.
    pub fn parse(data: &[u8], pos: usize) -> (r: Option<Album>)
        requires
            pos <= data@.len(),
        ensures
            r is Some <==> Self::spec_readable(data@, pos as int),
            r matches Some(v) ==> v.spec_read(data@, pos as int),
            r matches Some(v) ==> forall|i: int| 0 <= i < v.offsets.inner.spec_items().len() ==> DeviceSQLString::spec_writable(#[trigger] v.offsets.inner.spec_items()[i]),
    {
        let ((x0, (x1, (x2, (x3, (x4, x5))))), e) = match <AlbumHead as Codec>::parse(data, pos) {
            Some(x) => x,
            None => {
                return None;
            },
        };
        proof {
            <AlbumHead as Codec>::lemma_parse_bounds(data@, pos as int);
        }
        let subtype = Subtype(x0);
        let offsets = match OffsetArrayContainer::<TrailingName, 1>::parse(data, e, 20, subtype.get_offset_size()) {
            Some(c) => c,
            None => {
                return None;
            },
        };
        Some(Album { subtype: subtype, index_shift: x1, unknown2: x2, artist_id: ArtistId(x3), id: AlbumId(x4), unknown3: x5, offsets })
    }

    /// Writes the row at `pos` of `buf`: the fixed-size fields, then the offsets
    /// and the strings they point at. Fails where the offsets have another size
    /// than the subtype demands, or would reach beyond the addressable memory.
    pub fn write(&self, buf: &mut Vec<u8>, pos: usize) -> (r: Result<(), OffsetArrayError>)
        requires
            forall|i: int| 0 <= i < 1 ==> DeviceSQLString::spec_writable(#[trigger] self.offsets.inner.spec_items()[i]),
        ensures
            r is Ok ==> final(buf)@ == self.spec_write(old(buf)@, pos as int),
            self.offsets.offsets.spec_size() != self.subtype.spec_offset_size() ==> r == Err::<(), OffsetArrayError>(OffsetArrayError::OffsetSizeMismatch),
            self.offsets.offsets.spec_size() == self.subtype.spec_offset_size() ==> (r is Ok <==> self.spec_fits_memory(pos as int)),
            self.offsets.offsets.spec_size() == self.subtype.spec_offset_size() && !self.spec_fits_memory(pos as int) ==> r == Err::<(), OffsetArrayError>(OffsetArrayError::PositionOverflow),
    {
        let mut head: Vec<u8> = Vec::new();
        self.subtype.0.serialize(&mut head);
        self.index_shift.serialize(&mut head);
        self.unknown2.serialize(&mut head);
        self.artist_id.0.serialize(&mut head);
        self.id.0.serialize(&mut head);
        self.unknown3.serialize(&mut head);
        assert(head@ =~= <AlbumHead as Codec>::spec_bytes(self.spec_head()));
        if pos > usize::MAX - 20 {
            if !self.offsets.offsets.assert_offset_size_matches(self.subtype.get_offset_size()) {
                return Err(OffsetArrayError::OffsetSizeMismatch);
            }
            return Err(OffsetArrayError::PositionOverflow);
        }
        write_bytes_at(buf, pos, head.as_slice());
        self.offsets.write(buf, pos + 20, 20, self.subtype.get_offset_size())
    }

    /// Number of bytes the row takes in a page heap.
    pub fn heap_bytes_required(&self) -> (r: u16)
        requires
            self.spec_heap_bytes() <= u16::MAX,
            forall|i: int| 0 <= i < 1 ==> DeviceSQLString::spec_writable(#[trigger] self.offsets.inner.spec_items()[i]),
        ensures
            r == self.spec_heap_bytes(),
    {
        20 + self.offsets.heap_bytes_required()
    }
}

/// The fixed-size fields of a `Artist` row in storage order.
pub type ArtistHead = (u16, (u16, u32));

/// Contains the artist name and ID.
#[derive(Debug, PartialEq, Eq, Clone)]
pub struct Artist {
    /// Determines if the name offset is 8-bit (0x60) or 16-bit (0x64).
    pub subtype: Subtype,
    /// Unknown field, called `index_shift`; appears to always be 0x20 * row index.
    pub index_shift: u16,
    /// ID of this row.
    pub id: ArtistId,
    /// The offset of the artist name at the end of this row.
    pub offsets: OffsetArrayContainer<TrailingName, 1>,
}

impl Artist {
    /// Size of the fixed-size fields, where the offsets begin.
    pub const HEAD_SIZE: usize = 8;

    /// The fixed-size fields, as numbers.
    pub open spec fn spec_head(&self) -> <ArtistHead as View>::V {
        (self.subtype.0, (self.index_shift, self.id.0))
    }

    /// `self` is the row decoded at byte `p` of `s`.
    pub open spec fn spec_read(&self, s: Seq<u8>, p: int) -> bool {
        &&& <ArtistHead as Codec>::spec_parse(s, p) == Some((self.spec_head(), p + 8))
        &&& self.offsets.offsets.spec_size() == self.subtype.spec_offset_size()
        &&& OffsetArrayContainer::<TrailingName, 1>::spec_parse(s, p + 8, 8, self.subtype.spec_offset_size()) == Some(
            (self.offsets.offsets.spec_offsets(), self.offsets.inner.spec_items()),
        )
    }

    /// A row of this type decodes at byte `p` of `s`.
    pub open spec fn spec_readable(s: Seq<u8>, p: int) -> bool {
        match <ArtistHead as Codec>::spec_parse(s, p) {
            Some((h, e)) => OffsetArrayContainer::<TrailingName, 1>::spec_parse(s, e, 8, Subtype(h.0).spec_offset_size()) is Some,
            None => false,
        }
    }

    /// `buf` after writing the row at `p`: the fixed-size fields, then the offsets and strings.
    pub open spec fn spec_write(&self, buf: Seq<u8>, p: int) -> Seq<u8> {
        self.offsets.spec_write(write_at(buf, p, <ArtistHead as Codec>::spec_bytes(self.spec_head())), p + 8, 8)
    }

    /// Number of bytes the row takes in a page heap.
    pub open spec fn spec_heap_bytes(&self) -> int {
        8 + self.offsets.spec_heap_bytes()
    }

    /// Every byte that writing the row at `p` writes has an address that a
    /// `usize` can hold.
    pub open spec fn spec_fits_memory(&self, p: int) -> bool {
        &&& p + 8 <= usize::MAX
        &&& self.offsets.spec_fits_memory(p + 8, 8)
    }

    /// The fields and the name of the row can be encoded and decode back to
    /// themselves.
    pub open spec fn spec_wf(&self) -> bool {
        &&& <ArtistHead as Codec>::spec_wf(self.spec_head())
        &&& self.offsets.spec_items_wf()
    }

    /// The name lies after the offsets.
    pub open spec fn spec_laid_out(&self) -> bool {
        self.offsets.spec_laid_out(8)
    }

    /// Every byte that writing the row at `p` writes lies from `lo` up to `hi`.
    pub open spec fn spec_within(&self, p: int, lo: int, hi: int) -> bool {
        &&& lo <= p
        &&& p + 8 <= hi
        &&& self.offsets.spec_within(p + 8, 8, lo, hi)
    }

    /// `s` holds the fields, offsets and strings of the row where writing it
    /// at `p` puts them.
    pub open spec fn spec_held(&self, s: Seq<u8>, p: int) -> bool {
        &&& holds_at(s, p, <ArtistHead as Codec>::spec_bytes(self.spec_head()))
        &&& self.offsets.spec_held(s, p + 8, 8)
    }

    /// After writing the row at `p`, its parts are held where they were
    /// written, where its strings lie after its offsets without clashing.
    pub proof fn lemma_write_held(&self, buf: Seq<u8>, p: int)
        requires
            0 <= p,
            self.spec_laid_out(),
        ensures
            self.spec_held(self.spec_write(buf, p), p),
    {
        let hb = <ArtistHead as Codec>::spec_bytes(self.spec_head());
        let s1 = write_at(buf, p, hb);
        lemma_write_at_holds(buf, p, hb);
        assert(hb.len() == 8);
        self.offsets.lemma_write_keeps_before(s1, p + 8, 8, p, hb);
        self.offsets.lemma_write_held(s1, p + 8, 8);
    }

    /// The parts of a well-formed row held where writing it at `p` puts them
    /// decode to the row.
    pub proof fn lemma_held_read(&self, s: Seq<u8>, p: int)
        requires
            0 <= p,
            self.spec_held(s, p),
            self.spec_wf(),
            self.offsets.offsets.spec_size() == self.subtype.spec_offset_size(),
        ensures
            self.spec_read(s, p),
    {
        lemma_parse_held::<ArtistHead>(s, p, self.spec_head());
        assert(self.offsets.inner.spec_items().len() == 1);
        self.offsets.lemma_held_parse(s, p + 8, 8);
    }

    /// Writing the row where its bytes lie from `lo2` up to `hi2` keeps the
    /// bytes of a range that does not meet that one.
    pub proof fn lemma_write_agree(&self, buf: Seq<u8>, p: int, lo2: int, hi2: int, lo: int, hi: int)
        requires
            0 <= p,
            self.spec_within(p, lo2, hi2),
            hi2 <= lo || hi <= lo2,
            0 <= lo <= hi <= buf.len(),
        ensures
            agree_on(buf, self.spec_write(buf, p), lo, hi),
            self.spec_write(buf, p).len() >= buf.len(),
    {
        let hb = <ArtistHead as Codec>::spec_bytes(self.spec_head());
        let s1 = write_at(buf, p, hb);
        assert(hb.len() == 8);
        lemma_write_at_agree(buf, p, hb, lo, hi);
        self.offsets.lemma_write_agree(s1, p + 8, 8, lo2, hi2, lo, hi);
        lemma_agree_trans(buf, s1, self.spec_write(buf, p), lo, hi);
    }

    /// The parts of the row held within a range stay held where the bytes of
    /// that range stay.
    pub proof fn lemma_held_agree(&self, s1: Seq<u8>, s2: Seq<u8>, p: int, lo: int, hi: int)
        requires
            self.spec_held(s1, p),
            self.spec_within(p, lo, hi),
            agree_on(s1, s2, lo, hi),
        ensures
            self.spec_held(s2, p),
    {
        let hb = <ArtistHead as Codec>::spec_bytes(self.spec_head());
        assert(hb.len() == 8);
        lemma_agree_holds(s1, s2, lo, hi, p, hb);
        self.offsets.lemma_held_agree(s1, s2, p + 8, 8, lo, hi);
    }

    /// Writing the row at `p` keeps the bytes held before `p`.
    pub proof fn lemma_write_keeps_before(&self, buf: Seq<u8>, p: int, r: int, c: Seq<u8>)
        requires
            holds_at(buf, r, c),
            r + c.len() <= p,
        ensures
            holds_at(self.spec_write(buf, p), r, c),
    {
        let hb = <ArtistHead as Codec>::spec_bytes(self.spec_head());
        lemma_write_at_keeps(buf, p, hb, r, c);
        self.offsets.lemma_write_keeps_before_base(write_at(buf, p, hb), p + 8, 8, r, c);
    }

    /// Decodes the row at `pos`.
    pub fn parse(data: &[u8], pos: usize) -> (r: Option<Artist>)
        requires
            pos <= data@.len(),
        ensures
            r is Some <==> Self::spec_readable(data@, pos as int),
            r matches Some(v) ==> v.spec_read(data@, pos as int),
            r matches Some(v) ==> forall|i: int| 0 <= i < v.offsets.inner.spec_items().len() ==> DeviceSQLString::spec_writable(#[trigger] v.offsets.inner.spec_items()[i]),
    {
        let ((x0, (x1, x2)), e) = match <ArtistHead as Codec>::parse(data, pos) {
            Some(x) => x,
            None => {
                return None;
            },
        };
        proof {
            <ArtistHead as Codec>::lemma_parse_bounds(data@, pos as int);
        }
        let subtype = Subtype(x0);
        let offsets = match OffsetArrayContainer::<TrailingName, 1>::parse(data, e, 8, subtype.get_offset_size()) {
            Some(c) => c,
            None => {
                return None;
            },
        };
        Some(Artist { subtype: subtype, index_shift: x1, id: ArtistId(x2), offsets })
    }

    /// Writes the row at `pos` of `buf`: the fixed-size fields, then the offsets
    /// and the strings they point at. Fails where the offsets have another size
    /// than the subtype demands, or would reach beyond the addressable memory.
    pub fn write(&self, buf: &mut Vec<u8>, pos: usize) -> (r: Result<(), OffsetArrayError>)
        requires
            forall|i: int| 0 <= i < 1 ==> DeviceSQLString::spec_writable(#[trigger] self.offsets.inner.spec_items()[i]),
        ensures
            r is Ok ==> final(buf)@ == self.spec_write(old(buf)@, pos as int),
            self.offsets.offsets.spec_size() != self.subtype.spec_offset_size() ==> r == Err::<(), OffsetArrayError>(OffsetArrayError::OffsetSizeMismatch),
            self.offsets.offsets.spec_size() == self.subtype.spec_offset_size() ==> (r is Ok <==> self.spec_fits_memory(pos as int)),
            self.offsets.offsets.spec_size() == self.subtype.spec_offset_size() && !self.spec_fits_memory(pos as int) ==> r == Err::<(), OffsetArrayError>(OffsetArrayError::PositionOverflow),
    {
        let mut head: Vec<u8> = Vec::new();
        self.subtype.0.serialize(&mut head);
        self.index_shift.serialize(&mut head);
        self.id.0.serialize(&mut head);
        assert(head@ =~= <ArtistHead as Codec>::spec_bytes(self.spec_head()));
        if pos > usize::MAX - 8 {
            if !self.offsets.offsets.assert_offset_size_matches(self.subtype.get_offset_size()) {
                return Err(OffsetArrayError::OffsetSizeMismatch);
            }
            return Err(OffsetArrayError::PositionOverflow);
        }
        write_bytes_at(buf, pos, head.as_slice());
        self.offsets.write(buf, pos + 8, 8, self.subtype.get_offset_size())
    }

    /// Number of bytes the row takes in a page heap.
    pub fn heap_bytes_required(&self) -> (r: u16)
        requires
            self.spec_heap_bytes() <= u16::MAX,
            forall|i: int| 0 <= i < 1 ==> DeviceSQLString::spec_writable(#[trigger] self.offsets.inner.spec_items()[i]),
        ensures
            r == self.spec_heap_bytes(),
    {
        8 + self.offsets.heap_bytes_required()
    }
}

/// Contains a track entry: its metadata and the strings describing it.
#[derive(Debug, PartialEq, Eq, Clone)]
pub struct Track {
    /// Unknown field, usually `0x24`; decides the size of the string offsets.
    pub subtype: Subtype,
    /// Unknown field, called `index_shift`; appears to always be 0x20 * row index.
    pub index_shift: u16,
    /// Unknown field, called `bitmask`; appears to always be 0x000c0700.
    pub bitmask: u32,
    /// Sample rate in Hz.
    pub sample_rate: u32,
    /// Composer of this track as artist row ID (non-zero if set).
    pub composer_id: ArtistId,
    /// File size in bytes.
    pub file_size: u32,
    /// Unknown field; observed values are effectively random.
    pub unknown2: u32,
    /// Unknown field; the same for all tracks in a given database.
    pub unknown3: u16,
    /// Unknown field; the same for all tracks in a given database.
    pub unknown4: u16,
    /// Artwork row ID for the cover art (non-zero if set).
    pub artwork_id: ArtworkId,
    /// Key row ID (non-zero if set).
    pub key_id: KeyId,
    /// Artist row ID of the original performer (non-zero if set).
    pub orig_artist_id: ArtistId,
    /// Label row ID (non-zero if set).
    pub label_id: LabelId,
    /// Artist row ID of the remixer (non-zero if set).
    pub remixer_id: ArtistId,
    /// Bitrate of the track.
    pub bitrate: u32,
    /// Track number of the track.
    pub track_number: u32,
    /// Track tempo in centi-BPM (= 1/100 BPM).
    pub tempo: u32,
    /// Genre row ID for this track (non-zero if set).
    pub genre_id: GenreId,
    /// Album row ID for this track (non-zero if set).
    pub album_id: AlbumId,
    /// Artist row ID for this track (non-zero if set).
    pub artist_id: ArtistId,
    /// Row ID of this track (non-zero if set).
    pub id: TrackId,
    /// Disc number of this track (non-zero if set).
    pub disc_number: u16,
    /// Number of times this track was played.
    pub play_count: u16,
    /// Year this track was released.
    pub year: u16,
    /// Bits per sample of the track audio file.
    pub sample_depth: u16,
    /// Playback duration of this track in seconds (at normal speed).
    pub duration: u16,
    /// Unknown field, apparently always 0x29.
    pub unknown5: u16,
    /// Color row ID for this track (non-zero if set).
    pub color: ColorIndex,
    /// User rating of this track (0 to 5 stars).
    pub rating: u8,
    /// Format of the file.
    pub file_type: FileType,
    /// The offsets of the strings at the end of this row.
    pub offsets: OffsetArrayContainer<TrackStrings, 21>,
}

impl Track {
    /// Size of the fixed-size fields, where the string offsets begin.
    pub const HEAD_SIZE: usize = 92;

    /// The bytes of the fixed-size fields.
    #[verifier::opaque]
    pub open spec fn spec_head_bytes(&self) -> Seq<u8> {
        Seq::<u8>::empty() + bytes16(self.subtype.0)
            + bytes16(self.index_shift)
            + bytes32(self.bitmask)
            + bytes32(self.sample_rate)
            + bytes32(self.composer_id.0)
            + bytes32(self.file_size)
            + bytes32(self.unknown2)
            + bytes16(self.unknown3)
            + bytes16(self.unknown4)
            + bytes32(self.artwork_id.0)
            + bytes32(self.key_id.0)
            + bytes32(self.orig_artist_id.0)
            + bytes32(self.label_id.0)
            + bytes32(self.remixer_id.0)
            + bytes32(self.bitrate)
            + bytes32(self.track_number)
            + bytes32(self.tempo)
            + bytes32(self.genre_id.0)
            + bytes32(self.album_id.0)
            + bytes32(self.artist_id.0)
            + bytes32(self.id.0)
            + bytes16(self.disc_number)
            + bytes16(self.play_count)
            + bytes16(self.year)
            + bytes16(self.sample_depth)
            + bytes16(self.duration)
            + bytes16(self.unknown5)
            + seq![self.color.spec_to_u8()]
            + seq![self.rating]
            + bytes16(self.file_type.spec_to_u16())
    }

    /// The fixed-size fields of `self` are those decoded at byte `p` of `s`.
    pub open spec fn spec_head_read(&self, s: Seq<u8>, p: int) -> bool {
        &&& 0 <= p && p + 92 <= s.len()
        &&& le16(s, p + 0) == self.subtype.0
        &&& le16(s, p + 2) == self.index_shift
        &&& le32(s, p + 4) == self.bitmask
        &&& le32(s, p + 8) == self.sample_rate
        &&& le32(s, p + 12) == self.composer_id.0
        &&& le32(s, p + 16) == self.file_size
        &&& le32(s, p + 20) == self.unknown2
        &&& le16(s, p + 24) == self.unknown3
        &&& le16(s, p + 26) == self.unknown4
        &&& le32(s, p + 28) == self.artwork_id.0
        &&& le32(s, p + 32) == self.key_id.0
        &&& le32(s, p + 36) == self.orig_artist_id.0
        &&& le32(s, p + 40) == self.label_id.0
        &&& le32(s, p + 44) == self.remixer_id.0
        &&& le32(s, p + 48) == self.bitrate
        &&& le32(s, p + 52) == self.track_number
        &&& le32(s, p + 56) == self.tempo
        &&& le32(s, p + 60) == self.genre_id.0
        &&& le32(s, p + 64) == self.album_id.0
        &&& le32(s, p + 68) == self.artist_id.0
        &&& le32(s, p + 72) == self.id.0
        &&& le16(s, p + 76) == self.disc_number
        &&& le16(s, p + 78) == self.play_count
        &&& le16(s, p + 80) == self.year
        &&& le16(s, p + 82) == self.sample_depth
        &&& le16(s, p + 84) == self.duration
        &&& le16(s, p + 86) == self.unknown5
        &&& ColorIndex::spec_from_u8(s[p + 88]) == Some(self.color)
        &&& s[p + 89] == self.rating
        &&& FileType::spec_from_u16(le16(s, p + 90)) == self.file_type
    }

    /// The fields of a track row decode, from the bytes of its fixed-size
    /// fields, to themselves where its file type code reads back as its file type.
    #[verifier::spinoff_prover]
    #[verifier::rlimit(50)]
    pub proof fn lemma_head_held(&self, s: Seq<u8>, p: int)
        requires
            holds_at(s, p, self.spec_head_bytes()),
            FileType::spec_from_u16(self.file_type.spec_to_u16()) == self.file_type,
        ensures
            self.spec_head_read(s, p),
    {
        reveal(Track::spec_head_bytes);
        let x0 = Seq::<u8>::empty();
        let x1 = x0 + bytes16(self.subtype.0);
        let x2 = x1 + bytes16(self.index_shift);
        let x3 = x2 + bytes32(self.bitmask);
        let x4 = x3 + bytes32(self.sample_rate);
        let x5 = x4 + bytes32(self.composer_id.0);
        let x6 = x5 + bytes32(self.file_size);
        let x7 = x6 + bytes32(self.unknown2);
        let x8 = x7 + bytes16(self.unknown3);
        let x9 = x8 + bytes16(self.unknown4);
        let x10 = x9 + bytes32(self.artwork_id.0);
        let x11 = x10 + bytes32(self.key_id.0);
        let x12 = x11 + bytes32(self.orig_artist_id.0);
        let x13 = x12 + bytes32(self.label_id.0);
        let x14 = x13 + bytes32(self.remixer_id.0);
        let x15 = x14 + bytes32(self.bitrate);
        let x16 = x15 + bytes32(self.track_number);
        let x17 = x16 + bytes32(self.tempo);
        let x18 = x17 + bytes32(self.genre_id.0);
        let x19 = x18 + bytes32(self.album_id.0);
        let x20 = x19 + bytes32(self.artist_id.0);
        let x21 = x20 + bytes32(self.id.0);
        let x22 = x21 + bytes16(self.disc_number);
        let x23 = x22 + bytes16(self.play_count);
        let x24 = x23 + bytes16(self.year);
        let x25 = x24 + bytes16(self.sample_depth);
        let x26 = x25 + bytes16(self.duration);
        let x27 = x26 + bytes16(self.unknown5);
        let x28 = x27 + seq![self.color.spec_to_u8()];
        let x29 = x28 + seq![self.rating];
        let x30 = x29 + bytes16(self.file_type.spec_to_u16());
        assert(self.spec_head_bytes() == x30);
        lemma_holds_split(s, p, x29, bytes16(self.file_type.spec_to_u16()));
        assert(x29.len() == 90);
        lemma_le16_sub(s, p + 90, self.file_type.spec_to_u16());
        lemma_holds_split(s, p, x28, seq![self.rating]);
        assert(x28.len() == 89);
        assert(s[p + 89] == s.subrange(p + 89, p + 89 + 1)[0]);
        lemma_holds_split(s, p, x27, seq![self.color.spec_to_u8()]);
        assert(x27.len() == 88);
        assert(s[p + 88] == s.subrange(p + 88, p + 88 + 1)[0]);
        lemma_holds_split(s, p, x26, bytes16(self.unknown5));
        assert(x26.len() == 86);
        lemma_le16_sub(s, p + 86, self.unknown5);
        lemma_holds_split(s, p, x25, bytes16(self.duration));
        assert(x25.len() == 84);
        lemma_le16_sub(s, p + 84, self.duration);
        lemma_holds_split(s, p, x24, bytes16(self.sample_depth));
        assert(x24.len() == 82);
        lemma_le16_sub(s, p + 82, self.sample_depth);
        lemma_holds_split(s, p, x23, bytes16(self.year));
        assert(x23.len() == 80);
        lemma_le16_sub(s, p + 80, self.year);
        lemma_holds_split(s, p, x22, bytes16(self.play_count));
        assert(x22.len() == 78);
        lemma_le16_sub(s, p + 78, self.play_count);
        lemma_holds_split(s, p, x21, bytes16(self.disc_number));
        assert(x21.len() == 76);
        lemma_le16_sub(s, p + 76, self.disc_number);
        lemma_holds_split(s, p, x20, bytes32(self.id.0));
        assert(x20.len() == 72);
        lemma_le32_sub(s, p + 72, self.id.0);
        lemma_holds_split(s, p, x19, bytes32(self.artist_id.0));
        assert(x19.len() == 68);
        lemma_le32_sub(s, p + 68, self.artist_id.0);
        lemma_holds_split(s, p, x18, bytes32(self.album_id.0));
        assert(x18.len() == 64);
        lemma_le32_sub(s, p + 64, self.album_id.0);
        lemma_holds_split(s, p, x17, bytes32(self.genre_id.0));
        assert(x17.len() == 60);
        lemma_le32_sub(s, p + 60, self.genre_id.0);
        lemma_holds_split(s, p, x16, bytes32(self.tempo));
        assert(x16.len() == 56);
        lemma_le32_sub(s, p + 56, self.tempo);
        lemma_holds_split(s, p, x15, bytes32(self.track_number));
        assert(x15.len() == 52);
        lemma_le32_sub(s, p + 52, self.track_number);
        lemma_holds_split(s, p, x14, bytes32(self.bitrate));
        assert(x14.len() == 48);
        lemma_le32_sub(s, p + 48, self.bitrate);
        lemma_holds_split(s, p, x13, bytes32(self.remixer_id.0));
        assert(x13.len() == 44);
        lemma_le32_sub(s, p + 44, self.remixer_id.0);
        lemma_holds_split(s, p, x12, bytes32(self.label_id.0));
        assert(x12.len() == 40);
        lemma_le32_sub(s, p + 40, self.label_id.0);
        lemma_holds_split(s, p, x11, bytes32(self.orig_artist_id.0));
        assert(x11.len() == 36);
        lemma_le32_sub(s, p + 36, self.orig_artist_id.0);
        lemma_holds_split(s, p, x10, bytes32(self.key_id.0));
        assert(x10.len() == 32);
        lemma_le32_sub(s, p + 32, self.key_id.0);
        lemma_holds_split(s, p, x9, bytes32(self.artwork_id.0));
        assert(x9.len() == 28);
        lemma_le32_sub(s, p + 28, self.artwork_id.0);
        lemma_holds_split(s, p, x8, bytes16(self.unknown4));
        assert(x8.len() == 26);
        lemma_le16_sub(s, p + 26, self.unknown4);
        lemma_holds_split(s, p, x7, bytes16(self.unknown3));
        assert(x7.len() == 24);
        lemma_le16_sub(s, p + 24, self.unknown3);
        lemma_holds_split(s, p, x6, bytes32(self.unknown2));
        assert(x6.len() == 20);
        lemma_le32_sub(s, p + 20, self.unknown2);
        lemma_holds_split(s, p, x5, bytes32(self.file_size));
        assert(x5.len() == 16);
        lemma_le32_sub(s, p + 16, self.file_size);
        lemma_holds_split(s, p, x4, bytes32(self.composer_id.0));
        assert(x4.len() == 12);
        lemma_le32_sub(s, p + 12, self.composer_id.0);
        lemma_holds_split(s, p, x3, bytes32(self.sample_rate));
        assert(x3.len() == 8);
        lemma_le32_sub(s, p + 8, self.sample_rate);
        lemma_holds_split(s, p, x2, bytes32(self.bitmask));
        assert(x2.len() == 4);
        lemma_le32_sub(s, p + 4, self.bitmask);
        lemma_holds_split(s, p, x1, bytes16(self.index_shift));
        assert(x1.len() == 2);
        lemma_le16_sub(s, p + 2, self.index_shift);
        lemma_holds_split(s, p, x0, bytes16(self.subtype.0));
        assert(x0.len() == 0);
        lemma_le16_sub(s, p + 0, self.subtype.0);
    }

    /// `self` is the row decoded at byte `p` of `s`.
    pub open spec fn spec_read(&self, s: Seq<u8>, p: int) -> bool {
        &&& self.spec_head_read(s, p)
        &&& self.offsets.offsets.spec_size() == self.subtype.spec_offset_size()
        &&& OffsetArrayContainer::<TrackStrings, 21>::spec_parse(s, p + 92, 92, self.subtype.spec_offset_size())
            == Some((self.offsets.offsets.spec_offsets(), self.offsets.inner.spec_items()))
    }

    /// A track row decodes at byte `p` of `s`: its color byte names a color and
    /// its offsets and strings decode.
    pub open spec fn spec_readable(s: Seq<u8>, p: int) -> bool {
        &&& 0 <= p && p + 92 <= s.len()
        &&& ColorIndex::spec_from_u8(s[p + 88]) is Some
        &&& OffsetArrayContainer::<TrackStrings, 21>::spec_parse(s, p + 92, 92, Subtype(le16(s, p)).spec_offset_size()) is Some
    }

    /// `buf` after writing the row at `p`: the fixed-size fields, then the offsets and strings.
    pub open spec fn spec_write(&self, buf: Seq<u8>, p: int) -> Seq<u8> {
        self.offsets.spec_write(write_at(buf, p, self.spec_head_bytes()), p + 92, 92)
    }

    /// Number of bytes the row takes in a page heap.
    pub open spec fn spec_heap_bytes(&self) -> int {
        92 + self.offsets.spec_heap_bytes()
    }

    /// Every byte that writing the row at `p` writes has an address that a
    /// `usize` can hold.
    pub open spec fn spec_fits_memory(&self, p: int) -> bool {
        &&& p + 92 <= usize::MAX
        &&& self.offsets.spec_fits_memory(p + 92, 92)
    }

    /// The fields and strings of the row can be encoded and decode back to
    /// themselves: its file type code reads back as its file type.
    pub open spec fn spec_wf(&self) -> bool {
        &&& FileType::spec_from_u16(self.file_type.spec_to_u16()) == self.file_type
        &&& self.offsets.spec_items_wf()
    }

    /// The strings lie after the offsets, without clashing.
    pub open spec fn spec_laid_out(&self) -> bool {
        self.offsets.spec_laid_out(92)
    }

    /// Every byte that writing the row at `p` writes lies from `lo` up to `hi`.
    pub open spec fn spec_within(&self, p: int, lo: int, hi: int) -> bool {
        &&& lo <= p
        &&& p + 92 <= hi
        &&& self.offsets.spec_within(p + 92, 92, lo, hi)
    }

    /// `s` holds the fields, offsets and strings of the row where writing it
    /// at `p` puts them.
    pub open spec fn spec_held(&self, s: Seq<u8>, p: int) -> bool {
        &&& holds_at(s, p, self.spec_head_bytes())
        &&& self.offsets.spec_held(s, p + 92, 92)
    }

    /// After writing the row at `p`, its parts are held where they were
    /// written, where its strings lie after its offsets without clashing.
    pub proof fn lemma_write_held(&self, buf: Seq<u8>, p: int)
        requires
            0 <= p,
            self.spec_laid_out(),
        ensures
            self.spec_held(self.spec_write(buf, p), p),
    {
        let hb = self.spec_head_bytes();
        let s1 = write_at(buf, p, hb);
        lemma_write_at_holds(buf, p, hb);
        assert(hb.len() == 92) by { reveal(Track::spec_head_bytes); }
        self.offsets.lemma_write_keeps_before(s1, p + 92, 92, p, hb);
        self.offsets.lemma_write_held(s1, p + 92, 92);
    }

    /// The parts of a well-formed row held where writing it at `p` puts them
    /// decode to the row.
    pub proof fn lemma_held_read(&self, s: Seq<u8>, p: int)
        requires
            0 <= p,
            self.spec_held(s, p),
            self.spec_wf(),
            self.offsets.offsets.spec_size() == self.subtype.spec_offset_size(),
        ensures
            self.spec_read(s, p),
    {
        self.lemma_head_held(s, p);
        assert(self.offsets.inner.spec_items().len() == 21);
        self.offsets.lemma_held_parse(s, p + 92, 92);
    }

    /// Writing the row where its bytes lie from `lo2` up to `hi2` keeps the
    /// bytes of a range that does not meet that one.
    pub proof fn lemma_write_agree(&self, buf: Seq<u8>, p: int, lo2: int, hi2: int, lo: int, hi: int)
        requires
            0 <= p,
            self.spec_within(p, lo2, hi2),
            hi2 <= lo || hi <= lo2,
            0 <= lo <= hi <= buf.len(),
        ensures
            agree_on(buf, self.spec_write(buf, p), lo, hi),
            self.spec_write(buf, p).len() >= buf.len(),
    {
        let hb = self.spec_head_bytes();
        let s1 = write_at(buf, p, hb);
        assert(hb.len() == 92) by { reveal(Track::spec_head_bytes); }
        lemma_write_at_agree(buf, p, hb, lo, hi);
        self.offsets.lemma_write_agree(s1, p + 92, 92, lo2, hi2, lo, hi);
        lemma_agree_trans(buf, s1, self.spec_write(buf, p), lo, hi);
    }

    /// The parts of the row held within a range stay held where the bytes of
    /// that range stay.
    pub proof fn lemma_held_agree(&self, s1: Seq<u8>, s2: Seq<u8>, p: int, lo: int, hi: int)
        requires
            self.spec_held(s1, p),
            self.spec_within(p, lo, hi),
            agree_on(s1, s2, lo, hi),
        ensures
            self.spec_held(s2, p),
    {
        let hb = self.spec_head_bytes();
        assert(hb.len() == 92) by { reveal(Track::spec_head_bytes); }
        lemma_agree_holds(s1, s2, lo, hi, p, hb);
        self.offsets.lemma_held_agree(s1, s2, p + 92, 92, lo, hi);
    }

    /// Writing the row at `p` keeps the bytes held before `p`.
    pub proof fn lemma_write_keeps_before(&self, buf: Seq<u8>, p: int, r: int, c: Seq<u8>)
        requires
            holds_at(buf, r, c),
            r + c.len() <= p,
        ensures
            holds_at(self.spec_write(buf, p), r, c),
    {
        let hb = self.spec_head_bytes();
        lemma_write_at_keeps(buf, p, hb, r, c);
        self.offsets.lemma_write_keeps_before_base(write_at(buf, p, hb), p + 92, 92, r, c);
    }

    /// Decodes the row at `pos`.
    pub fn parse(data: &[u8], pos: usize) -> (r: Option<Track>)
        requires
            pos <= data@.len(),
        ensures
            r is Some <==> Self::spec_readable(data@, pos as int),
            r matches Some(v) ==> v.spec_read(data@, pos as int),
            r matches Some(v) ==> forall|i: int| 0 <= i < v.offsets.inner.spec_items().len() ==> DeviceSQLString::spec_writable(#[trigger] v.offsets.inner.spec_items()[i]),
    {
        if data.len() - pos < 92 {
            return None;
        }
        let color = match ColorIndex::from_u8(data[pos + 88]) {
            Some(c) => c,
            None => {
                return None;
            },
        };
        let subtype = Subtype(read_u16(data, pos + 0));
        let index_shift = read_u16(data, pos + 2);
        let bitmask = read_u32(data, pos + 4);
        let sample_rate = read_u32(data, pos + 8);
        let composer_id = ArtistId(read_u32(data, pos + 12));
        let file_size = read_u32(data, pos + 16);
        let unknown2 = read_u32(data, pos + 20);
        let unknown3 = read_u16(data, pos + 24);
        let unknown4 = read_u16(data, pos + 26);
        let artwork_id = ArtworkId(read_u32(data, pos + 28));
        let key_id = KeyId(read_u32(data, pos + 32));
        let orig_artist_id = ArtistId(read_u32(data, pos + 36));
        let label_id = LabelId(read_u32(data, pos + 40));
        let remixer_id = ArtistId(read_u32(data, pos + 44));
        let bitrate = read_u32(data, pos + 48);
        let track_number = read_u32(data, pos + 52);
        let tempo = read_u32(data, pos + 56);
        let genre_id = GenreId(read_u32(data, pos + 60));
        let album_id = AlbumId(read_u32(data, pos + 64));
        let artist_id = ArtistId(read_u32(data, pos + 68));
        let id = TrackId(read_u32(data, pos + 72));
        let disc_number = read_u16(data, pos + 76);
        let play_count = read_u16(data, pos + 78);
        let year = read_u16(data, pos + 80);
        let sample_depth = read_u16(data, pos + 82);
        let duration = read_u16(data, pos + 84);
        let unknown5 = read_u16(data, pos + 86);
        let rating = data[pos + 89];
        let file_type = FileType::from_u16(read_u16(data, pos + 90));
        let offsets = match OffsetArrayContainer::<TrackStrings, 21>::parse(
            data,
            pos + 92,
            92,
            subtype.get_offset_size(),
        ) {
            Some(c) => c,
            None => {
                return None;
            },
        };
        Some(Track { subtype, index_shift, bitmask, sample_rate, composer_id, file_size, unknown2, unknown3, unknown4, artwork_id, key_id, orig_artist_id, label_id, remixer_id, bitrate, track_number, tempo, genre_id, album_id, artist_id, id, disc_number, play_count, year, sample_depth, duration, unknown5, color, rating, file_type, offsets })
    }

    /// The bytes of the fixed-size fields.
    #[verifier::spinoff_prover]
    #[verifier::rlimit(50)]
    pub fn head_bytes(&self) -> (r: Vec<u8>)
        ensures
            r@ == self.spec_head_bytes(),
            r@.len() == 92,
    {
        reveal(Track::spec_head_bytes);
        let mut head: Vec<u8> = Vec::new();
        push_u16(&mut head, self.subtype.0);
        push_u16(&mut head, self.index_shift);
        push_u32(&mut head, self.bitmask);
        push_u32(&mut head, self.sample_rate);
        push_u32(&mut head, self.composer_id.0);
        push_u32(&mut head, self.file_size);
        push_u32(&mut head, self.unknown2);
        push_u16(&mut head, self.unknown3);
        push_u16(&mut head, self.unknown4);
        push_u32(&mut head, self.artwork_id.0);
        push_u32(&mut head, self.key_id.0);
        push_u32(&mut head, self.orig_artist_id.0);
        push_u32(&mut head, self.label_id.0);
        push_u32(&mut head, self.remixer_id.0);
        push_u32(&mut head, self.bitrate);
        push_u32(&mut head, self.track_number);
        push_u32(&mut head, self.tempo);
        push_u32(&mut head, self.genre_id.0);
        push_u32(&mut head, self.album_id.0);
        push_u32(&mut head, self.artist_id.0);
        push_u32(&mut head, self.id.0);
        push_u16(&mut head, self.disc_number);
        push_u16(&mut head, self.play_count);
        push_u16(&mut head, self.year);
        push_u16(&mut head, self.sample_depth);
        push_u16(&mut head, self.duration);
        push_u16(&mut head, self.unknown5);
        push_u8(&mut head, self.color.to_u8());
        push_u8(&mut head, self.rating);
        push_u16(&mut head, self.file_type.to_u16());
        head
    }

    /// Writes the row at `pos` of `buf`: the fixed-size fields, then the offsets
    /// and the strings they point at. Fails where the offsets have another size
    /// than the subtype demands, or would reach beyond the addressable memory.
    pub fn write(&self, buf: &mut Vec<u8>, pos: usize) -> (r: Result<(), OffsetArrayError>)
        requires
            forall|i: int| 0 <= i < 21 ==> DeviceSQLString::spec_writable(#[trigger] self.offsets.inner.spec_items()[i]),
        ensures
            r is Ok ==> final(buf)@ == self.spec_write(old(buf)@, pos as int),
            self.offsets.offsets.spec_size() != self.subtype.spec_offset_size() ==> r == Err::<(), OffsetArrayError>(OffsetArrayError::OffsetSizeMismatch),
            self.offsets.offsets.spec_size() == self.subtype.spec_offset_size() ==> (r is Ok <==> self.spec_fits_memory(pos as int)),
            self.offsets.offsets.spec_size() == self.subtype.spec_offset_size() && !self.spec_fits_memory(pos as int) ==> r == Err::<(), OffsetArrayError>(OffsetArrayError::PositionOverflow),
    {
        let head = self.head_bytes();
        if pos > usize::MAX - 92 {
            if !self.offsets.offsets.assert_offset_size_matches(self.subtype.get_offset_size()) {
                return Err(OffsetArrayError::OffsetSizeMismatch);
            }
            return Err(OffsetArrayError::PositionOverflow);
        }
        write_bytes_at(buf, pos, head.as_slice());
        self.offsets.write(buf, pos + 92, 92, self.subtype.get_offset_size())
    }

    /// Number of bytes the row takes in a page heap, or `None` where that does
    /// not fit into a `u16`.
    pub fn checked_heap_bytes(&self) -> (r: Option<u16>)
        requires
            forall|i: int| 0 <= i < 21 ==> DeviceSQLString::spec_writable(#[trigger] self.offsets.inner.spec_items()[i]),
        ensures
            self.spec_heap_bytes() >= 92,
            self.spec_heap_bytes() <= u16::MAX ==> r == Some(self.spec_heap_bytes() as u16),
            self.spec_heap_bytes() > u16::MAX ==> r is None,
    {
        match self.offsets.checked_heap_bytes() {
            Some(b) => if b <= 65535 - 92 {
                Some(92 + b)
            } else {
                None
            },
            None => None,
        }
    }

    /// Number of bytes the row takes in a page heap: the fixed-size fields, the
    /// offsets and the encoded strings.
    pub fn heap_bytes_required(&self) -> (r: u16)
        requires
            self.spec_heap_bytes() <= u16::MAX,
            forall|i: int| 0 <= i < 21 ==> DeviceSQLString::spec_writable(#[trigger] self.offsets.inner.spec_items()[i]),
        ensures
            r == self.spec_heap_bytes(),
    {
        92 + self.offsets.heap_bytes_required()
    }
}


/// A row of a plain database (`export.pdb`).
#[derive(Debug, PartialEq, Eq, Clone)]
pub enum PlainRow {
    /// Contains the album name, along with an ID of the corresponding artist.
    Album(Album),
    /// Contains the artist name and ID.
    Artist(Artist),
    /// Contains the artwork path and ID.
    Artwork(Artwork),
    /// Contains numeric color ID.
    Color(Color),
    /// Represents a musical genre.
    Genre(Genre),
    /// Represents a history playlist.
    HistoryPlaylist(HistoryPlaylist),
    /// Represents a track entry in a history playlist.
    HistoryEntry(HistoryEntry),
    /// Represents a history sync row.
    History(History),
    /// Represents a musical key.
    Key(Key),
    /// Represents a record label.
    Label(Label),
    /// Represents a node in the playlist tree (either a folder or a playlist).
    PlaylistTreeNode(PlaylistTreeNode),
    /// Represents a track entry in a playlist.
    PlaylistEntry(PlaylistEntry),
    /// Contains the metadata categories by which tracks can be browsed.
    ColumnEntry(ColumnEntry),
    /// Manages the active menus on the CDJ.
    Menu(Menu),
    /// Contains a track entry.
    Track(Track),
}

impl PlainRow {
    /// The page type whose pages hold rows of this kind.
    pub open spec fn spec_page_type(&self) -> PlainPageType {
        match self {
            PlainRow::Album(_) => PlainPageType::Albums,
            PlainRow::Artist(_) => PlainPageType::Artists,
            PlainRow::Artwork(_) => PlainPageType::Artwork,
            PlainRow::Color(_) => PlainPageType::Colors,
            PlainRow::Genre(_) => PlainPageType::Genres,
            PlainRow::HistoryPlaylist(_) => PlainPageType::HistoryPlaylists,
            PlainRow::HistoryEntry(_) => PlainPageType::HistoryEntries,
            PlainRow::History(_) => PlainPageType::History,
            PlainRow::Key(_) => PlainPageType::Keys,
            PlainRow::Label(_) => PlainPageType::Labels,
            PlainRow::PlaylistTreeNode(_) => PlainPageType::PlaylistTree,
            PlainRow::PlaylistEntry(_) => PlainPageType::PlaylistEntries,
            PlainRow::ColumnEntry(_) => PlainPageType::Columns,
            PlainRow::Menu(_) => PlainPageType::Menu,
            PlainRow::Track(_) => PlainPageType::Tracks,
        }
    }

    /// `self` is the row decoded at byte `p` of `s`.
    pub open spec fn spec_read(&self, s: Seq<u8>, p: int) -> bool {
        match self {
            PlainRow::Album(r) => r.spec_read(s, p),
            PlainRow::Artist(r) => r.spec_read(s, p),
            PlainRow::Artwork(r) => codec_read::<Artwork>(r@, s, p),
            PlainRow::Color(r) => codec_read::<Color>(r@, s, p),
            PlainRow::Genre(r) => codec_read::<Genre>(r@, s, p),
            PlainRow::HistoryPlaylist(r) => codec_read::<HistoryPlaylist>(r@, s, p),
            PlainRow::HistoryEntry(r) => codec_read::<HistoryEntry>(r@, s, p),
            PlainRow::History(r) => codec_read::<History>(r@, s, p),
            PlainRow::Key(r) => codec_read::<Key>(r@, s, p),
            PlainRow::Label(r) => codec_read::<Label>(r@, s, p),
            PlainRow::PlaylistTreeNode(r) => codec_read::<PlaylistTreeNode>(r@, s, p),
            PlainRow::PlaylistEntry(r) => codec_read::<PlaylistEntry>(r@, s, p),
            PlainRow::ColumnEntry(r) => codec_read::<ColumnEntry>(r@, s, p),
            PlainRow::Menu(r) => codec_read::<Menu>(r@, s, p),
            PlainRow::Track(r) => r.spec_read(s, p),
        }
    }

    /// A row of the kind that pages of type `t` hold decodes at byte `p` of `s`.
    pub open spec fn spec_readable(s: Seq<u8>, p: int, t: PlainPageType) -> bool {
        match t {
            PlainPageType::Albums => Album::spec_readable(s, p),
            PlainPageType::Artists => Artist::spec_readable(s, p),
            PlainPageType::Artwork => Artwork::spec_parse(s, p) is Some,
            PlainPageType::Colors => Color::spec_parse(s, p) is Some,
            PlainPageType::Genres => Genre::spec_parse(s, p) is Some,
            PlainPageType::HistoryPlaylists => HistoryPlaylist::spec_parse(s, p) is Some,
            PlainPageType::HistoryEntries => HistoryEntry::spec_parse(s, p) is Some,
            PlainPageType::History => History::spec_parse(s, p) is Some,
            PlainPageType::Keys => Key::spec_parse(s, p) is Some,
            PlainPageType::Labels => Label::spec_parse(s, p) is Some,
            PlainPageType::PlaylistTree => PlaylistTreeNode::spec_parse(s, p) is Some,
            PlainPageType::PlaylistEntries => PlaylistEntry::spec_parse(s, p) is Some,
            PlainPageType::Columns => ColumnEntry::spec_parse(s, p) is Some,
            PlainPageType::Menu => Menu::spec_parse(s, p) is Some,
            PlainPageType::Tracks => Track::spec_readable(s, p),
        }
    }

    /// The row can be written: its strings fit their length fields.
    pub open spec fn spec_writable(&self) -> bool {
        match self {
            PlainRow::Album(r) => forall|i: int| 0 <= i < 1 ==> DeviceSQLString::spec_writable(#[trigger] r.offsets.inner.spec_items()[i]),
            PlainRow::Artist(r) => forall|i: int| 0 <= i < 1 ==> DeviceSQLString::spec_writable(#[trigger] r.offsets.inner.spec_items()[i]),
            PlainRow::Artwork(r) => Artwork::spec_writable(r@),
            PlainRow::Color(r) => Color::spec_writable(r@),
            PlainRow::Genre(r) => Genre::spec_writable(r@),
            PlainRow::HistoryPlaylist(r) => HistoryPlaylist::spec_writable(r@),
            PlainRow::HistoryEntry(r) => HistoryEntry::spec_writable(r@),
            PlainRow::History(r) => History::spec_writable(r@),
            PlainRow::Key(r) => Key::spec_writable(r@),
            PlainRow::Label(r) => Label::spec_writable(r@),
            PlainRow::PlaylistTreeNode(r) => PlaylistTreeNode::spec_writable(r@),
            PlainRow::PlaylistEntry(r) => PlaylistEntry::spec_writable(r@),
            PlainRow::ColumnEntry(r) => ColumnEntry::spec_writable(r@),
            PlainRow::Menu(r) => Menu::spec_writable(r@),
            PlainRow::Track(r) => forall|i: int| 0 <= i < 21 ==> DeviceSQLString::spec_writable(#[trigger] r.offsets.inner.spec_items()[i]),
        }
    }

    /// The fields and strings of the row can be encoded and decode back to
    /// themselves.
    pub open spec fn spec_wf(&self) -> bool {
        match self {
            PlainRow::Album(r) => r.spec_wf(),
            PlainRow::Artist(r) => r.spec_wf(),
            PlainRow::Artwork(r) => Artwork::spec_wf(r@),
            PlainRow::Color(r) => Color::spec_wf(r@),
            PlainRow::Genre(r) => Genre::spec_wf(r@),
            PlainRow::HistoryPlaylist(r) => HistoryPlaylist::spec_wf(r@),
            PlainRow::HistoryEntry(r) => HistoryEntry::spec_wf(r@),
            PlainRow::History(r) => History::spec_wf(r@),
            PlainRow::Key(r) => Key::spec_wf(r@),
            PlainRow::Label(r) => Label::spec_wf(r@),
            PlainRow::PlaylistTreeNode(r) => PlaylistTreeNode::spec_wf(r@),
            PlainRow::PlaylistEntry(r) => PlaylistEntry::spec_wf(r@),
            PlainRow::ColumnEntry(r) => ColumnEntry::spec_wf(r@),
            PlainRow::Menu(r) => Menu::spec_wf(r@),
            PlainRow::Track(r) => r.spec_wf(),
        }
    }

    /// The strings of an album, artist or track row lie after its offsets
    /// without clashing; other rows have no offsets.
    pub open spec fn spec_laid_out(&self) -> bool {
        match self {
            PlainRow::Album(r) => r.spec_laid_out(),
            PlainRow::Artist(r) => r.spec_laid_out(),
            PlainRow::Track(r) => r.spec_laid_out(),
            _ => true,
        }
    }

    /// Every byte that writing the row at `p` writes lies from `lo` up to `hi`.
    pub open spec fn spec_within(&self, p: int, lo: int, hi: int) -> bool {
        match self {
            PlainRow::Album(r) => r.spec_within(p, lo, hi),
            PlainRow::Artist(r) => r.spec_within(p, lo, hi),
            PlainRow::Artwork(r) => lo <= p && p + Artwork::spec_bytes(r@).len() <= hi,
            PlainRow::Color(r) => lo <= p && p + Color::spec_bytes(r@).len() <= hi,
            PlainRow::Genre(r) => lo <= p && p + Genre::spec_bytes(r@).len() <= hi,
            PlainRow::HistoryPlaylist(r) => lo <= p && p + HistoryPlaylist::spec_bytes(r@).len() <= hi,
            PlainRow::HistoryEntry(r) => lo <= p && p + HistoryEntry::spec_bytes(r@).len() <= hi,
            PlainRow::History(r) => lo <= p && p + History::spec_bytes(r@).len() <= hi,
            PlainRow::Key(r) => lo <= p && p + Key::spec_bytes(r@).len() <= hi,
            PlainRow::Label(r) => lo <= p && p + Label::spec_bytes(r@).len() <= hi,
            PlainRow::PlaylistTreeNode(r) => lo <= p && p + PlaylistTreeNode::spec_bytes(r@).len() <= hi,
            PlainRow::PlaylistEntry(r) => lo <= p && p + PlaylistEntry::spec_bytes(r@).len() <= hi,
            PlainRow::ColumnEntry(r) => lo <= p && p + ColumnEntry::spec_bytes(r@).len() <= hi,
            PlainRow::Menu(r) => lo <= p && p + Menu::spec_bytes(r@).len() <= hi,
            PlainRow::Track(r) => r.spec_within(p, lo, hi),
        }
    }

    /// `s` holds the parts of the row where writing it at `p` puts them.
    pub open spec fn spec_held(&self, s: Seq<u8>, p: int) -> bool {
        match self {
            PlainRow::Album(r) => r.spec_held(s, p),
            PlainRow::Artist(r) => r.spec_held(s, p),
            PlainRow::Artwork(r) => holds_at(s, p, Artwork::spec_bytes(r@)),
            PlainRow::Color(r) => holds_at(s, p, Color::spec_bytes(r@)),
            PlainRow::Genre(r) => holds_at(s, p, Genre::spec_bytes(r@)),
            PlainRow::HistoryPlaylist(r) => holds_at(s, p, HistoryPlaylist::spec_bytes(r@)),
            PlainRow::HistoryEntry(r) => holds_at(s, p, HistoryEntry::spec_bytes(r@)),
            PlainRow::History(r) => holds_at(s, p, History::spec_bytes(r@)),
            PlainRow::Key(r) => holds_at(s, p, Key::spec_bytes(r@)),
            PlainRow::Label(r) => holds_at(s, p, Label::spec_bytes(r@)),
            PlainRow::PlaylistTreeNode(r) => holds_at(s, p, PlaylistTreeNode::spec_bytes(r@)),
            PlainRow::PlaylistEntry(r) => holds_at(s, p, PlaylistEntry::spec_bytes(r@)),
            PlainRow::ColumnEntry(r) => holds_at(s, p, ColumnEntry::spec_bytes(r@)),
            PlainRow::Menu(r) => holds_at(s, p, Menu::spec_bytes(r@)),
            PlainRow::Track(r) => r.spec_held(s, p),
        }
    }

    /// After writing the row at `p`, its parts are held where they were
    /// written, where its strings lie after its offsets without clashing.
    pub proof fn lemma_write_held(&self, buf: Seq<u8>, p: int)
        requires
            0 <= p,
            self.spec_laid_out(),
        ensures
            self.spec_held(self.spec_write(buf, p), p),
    {
        match self {
            PlainRow::Album(r) => r.lemma_write_held(buf, p),
            PlainRow::Artist(r) => r.lemma_write_held(buf, p),
            PlainRow::Artwork(r) => lemma_write_at_holds(buf, p, Artwork::spec_bytes(r@)),
            PlainRow::Color(r) => lemma_write_at_holds(buf, p, Color::spec_bytes(r@)),
            PlainRow::Genre(r) => lemma_write_at_holds(buf, p, Genre::spec_bytes(r@)),
            PlainRow::HistoryPlaylist(r) => lemma_write_at_holds(buf, p, HistoryPlaylist::spec_bytes(r@)),
            PlainRow::HistoryEntry(r) => lemma_write_at_holds(buf, p, HistoryEntry::spec_bytes(r@)),
            PlainRow::History(r) => lemma_write_at_holds(buf, p, History::spec_bytes(r@)),
            PlainRow::Key(r) => lemma_write_at_holds(buf, p, Key::spec_bytes(r@)),
            PlainRow::Label(r) => lemma_write_at_holds(buf, p, Label::spec_bytes(r@)),
            PlainRow::PlaylistTreeNode(r) => lemma_write_at_holds(buf, p, PlaylistTreeNode::spec_bytes(r@)),
            PlainRow::PlaylistEntry(r) => lemma_write_at_holds(buf, p, PlaylistEntry::spec_bytes(r@)),
            PlainRow::ColumnEntry(r) => lemma_write_at_holds(buf, p, ColumnEntry::spec_bytes(r@)),
            PlainRow::Menu(r) => lemma_write_at_holds(buf, p, Menu::spec_bytes(r@)),
            PlainRow::Track(r) => r.lemma_write_held(buf, p),
        }
    }

    /// The parts of a well-formed row held where writing it at `p` puts them
    /// decode to the row.
    pub proof fn lemma_held_read(&self, s: Seq<u8>, p: int)
        requires
            0 <= p,
            self.spec_held(s, p),
            self.spec_wf(),
            self.spec_offsets_match(),
        ensures
            self.spec_read(s, p),
    {
        match self {
            PlainRow::Album(r) => r.lemma_held_read(s, p),
            PlainRow::Artist(r) => r.lemma_held_read(s, p),
            PlainRow::Artwork(r) => lemma_parse_held::<Artwork>(s, p, r@),
            PlainRow::Color(r) => lemma_parse_held::<Color>(s, p, r@),
            PlainRow::Genre(r) => lemma_parse_held::<Genre>(s, p, r@),
            PlainRow::HistoryPlaylist(r) => lemma_parse_held::<HistoryPlaylist>(s, p, r@),
            PlainRow::HistoryEntry(r) => lemma_parse_held::<HistoryEntry>(s, p, r@),
            PlainRow::History(r) => lemma_parse_held::<History>(s, p, r@),
            PlainRow::Key(r) => lemma_parse_held::<Key>(s, p, r@),
            PlainRow::Label(r) => lemma_parse_held::<Label>(s, p, r@),
            PlainRow::PlaylistTreeNode(r) => lemma_parse_held::<PlaylistTreeNode>(s, p, r@),
            PlainRow::PlaylistEntry(r) => lemma_parse_held::<PlaylistEntry>(s, p, r@),
            PlainRow::ColumnEntry(r) => lemma_parse_held::<ColumnEntry>(s, p, r@),
            PlainRow::Menu(r) => lemma_parse_held::<Menu>(s, p, r@),
            PlainRow::Track(r) => r.lemma_held_read(s, p),
        }
    }

    /// Writing the row where its bytes lie from `lo2` up to `hi2` keeps the
    /// bytes of a range that does not meet that one.
    pub proof fn lemma_write_agree(&self, buf: Seq<u8>, p: int, lo2: int, hi2: int, lo: int, hi: int)
        requires
            0 <= p,
            self.spec_within(p, lo2, hi2),
            hi2 <= lo || hi <= lo2,
            0 <= lo <= hi <= buf.len(),
        ensures
            agree_on(buf, self.spec_write(buf, p), lo, hi),
            self.spec_write(buf, p).len() >= buf.len(),
    {
        match self {
            PlainRow::Album(r) => r.lemma_write_agree(buf, p, lo2, hi2, lo, hi),
            PlainRow::Artist(r) => r.lemma_write_agree(buf, p, lo2, hi2, lo, hi),
            PlainRow::Artwork(r) => lemma_write_at_agree(buf, p, Artwork::spec_bytes(r@), lo, hi),
            PlainRow::Color(r) => lemma_write_at_agree(buf, p, Color::spec_bytes(r@), lo, hi),
            PlainRow::Genre(r) => lemma_write_at_agree(buf, p, Genre::spec_bytes(r@), lo, hi),
            PlainRow::HistoryPlaylist(r) => lemma_write_at_agree(buf, p, HistoryPlaylist::spec_bytes(r@), lo, hi),
            PlainRow::HistoryEntry(r) => lemma_write_at_agree(buf, p, HistoryEntry::spec_bytes(r@), lo, hi),
            PlainRow::History(r) => lemma_write_at_agree(buf, p, History::spec_bytes(r@), lo, hi),
            PlainRow::Key(r) => lemma_write_at_agree(buf, p, Key::spec_bytes(r@), lo, hi),
            PlainRow::Label(r) => lemma_write_at_agree(buf, p, Label::spec_bytes(r@), lo, hi),
            PlainRow::PlaylistTreeNode(r) => lemma_write_at_agree(buf, p, PlaylistTreeNode::spec_bytes(r@), lo, hi),
            PlainRow::PlaylistEntry(r) => lemma_write_at_agree(buf, p, PlaylistEntry::spec_bytes(r@), lo, hi),
            PlainRow::ColumnEntry(r) => lemma_write_at_agree(buf, p, ColumnEntry::spec_bytes(r@), lo, hi),
            PlainRow::Menu(r) => lemma_write_at_agree(buf, p, Menu::spec_bytes(r@), lo, hi),
            PlainRow::Track(r) => r.lemma_write_agree(buf, p, lo2, hi2, lo, hi),
        }
    }

    /// The parts of the row held within a range stay held where the bytes of
    /// that range stay.
    pub proof fn lemma_held_agree(&self, s1: Seq<u8>, s2: Seq<u8>, p: int, lo: int, hi: int)
        requires
            self.spec_held(s1, p),
            self.spec_within(p, lo, hi),
            agree_on(s1, s2, lo, hi),
        ensures
            self.spec_held(s2, p),
    {
        match self {
            PlainRow::Album(r) => r.lemma_held_agree(s1, s2, p, lo, hi),
            PlainRow::Artist(r) => r.lemma_held_agree(s1, s2, p, lo, hi),
            PlainRow::Artwork(r) => lemma_agree_holds(s1, s2, lo, hi, p, Artwork::spec_bytes(r@)),
            PlainRow::Color(r) => lemma_agree_holds(s1, s2, lo, hi, p, Color::spec_bytes(r@)),
            PlainRow::Genre(r) => lemma_agree_holds(s1, s2, lo, hi, p, Genre::spec_bytes(r@)),
            PlainRow::HistoryPlaylist(r) => lemma_agree_holds(s1, s2, lo, hi, p, HistoryPlaylist::spec_bytes(r@)),
            PlainRow::HistoryEntry(r) => lemma_agree_holds(s1, s2, lo, hi, p, HistoryEntry::spec_bytes(r@)),
            PlainRow::History(r) => lemma_agree_holds(s1, s2, lo, hi, p, History::spec_bytes(r@)),
            PlainRow::Key(r) => lemma_agree_holds(s1, s2, lo, hi, p, Key::spec_bytes(r@)),
            PlainRow::Label(r) => lemma_agree_holds(s1, s2, lo, hi, p, Label::spec_bytes(r@)),
            PlainRow::PlaylistTreeNode(r) => lemma_agree_holds(s1, s2, lo, hi, p, PlaylistTreeNode::spec_bytes(r@)),
            PlainRow::PlaylistEntry(r) => lemma_agree_holds(s1, s2, lo, hi, p, PlaylistEntry::spec_bytes(r@)),
            PlainRow::ColumnEntry(r) => lemma_agree_holds(s1, s2, lo, hi, p, ColumnEntry::spec_bytes(r@)),
            PlainRow::Menu(r) => lemma_agree_holds(s1, s2, lo, hi, p, Menu::spec_bytes(r@)),
            PlainRow::Track(r) => r.lemma_held_agree(s1, s2, p, lo, hi),
        }
    }

    /// Writing the row at `p` keeps the bytes held before `p`.
    pub proof fn lemma_write_keeps_before(&self, buf: Seq<u8>, p: int, q: int, c: Seq<u8>)
        requires
            holds_at(buf, q, c),
            q + c.len() <= p,
        ensures
            holds_at(self.spec_write(buf, p), q, c),
    {
        match self {
            PlainRow::Album(r) => r.lemma_write_keeps_before(buf, p, q, c),
            PlainRow::Artist(r) => r.lemma_write_keeps_before(buf, p, q, c),
            PlainRow::Artwork(r) => lemma_write_at_keeps(buf, p, Artwork::spec_bytes(r@), q, c),
            PlainRow::Color(r) => lemma_write_at_keeps(buf, p, Color::spec_bytes(r@), q, c),
            PlainRow::Genre(r) => lemma_write_at_keeps(buf, p, Genre::spec_bytes(r@), q, c),
            PlainRow::HistoryPlaylist(r) => lemma_write_at_keeps(buf, p, HistoryPlaylist::spec_bytes(r@), q, c),
            PlainRow::HistoryEntry(r) => lemma_write_at_keeps(buf, p, HistoryEntry::spec_bytes(r@), q, c),
            PlainRow::History(r) => lemma_write_at_keeps(buf, p, History::spec_bytes(r@), q, c),
            PlainRow::Key(r) => lemma_write_at_keeps(buf, p, Key::spec_bytes(r@), q, c),
            PlainRow::Label(r) => lemma_write_at_keeps(buf, p, Label::spec_bytes(r@), q, c),
            PlainRow::PlaylistTreeNode(r) => lemma_write_at_keeps(buf, p, PlaylistTreeNode::spec_bytes(r@), q, c),
            PlainRow::PlaylistEntry(r) => lemma_write_at_keeps(buf, p, PlaylistEntry::spec_bytes(r@), q, c),
            PlainRow::ColumnEntry(r) => lemma_write_at_keeps(buf, p, ColumnEntry::spec_bytes(r@), q, c),
            PlainRow::Menu(r) => lemma_write_at_keeps(buf, p, Menu::spec_bytes(r@), q, c),
            PlainRow::Track(r) => r.lemma_write_keeps_before(buf, p, q, c),
        }
    }

    /// Every byte that writing the row at `p` writes has an address that a
    /// `usize` can hold.
    pub open spec fn spec_fits_memory(&self, p: int) -> bool {
        match self {
            PlainRow::Album(r) => r.spec_fits_memory(p),
            PlainRow::Artist(r) => r.spec_fits_memory(p),
            PlainRow::Artwork(r) => p + Artwork::spec_bytes(r@).len() <= usize::MAX,
            PlainRow::Color(r) => p + Color::spec_bytes(r@).len() <= usize::MAX,
            PlainRow::Genre(r) => p + Genre::spec_bytes(r@).len() <= usize::MAX,
            PlainRow::HistoryPlaylist(r) => p + HistoryPlaylist::spec_bytes(r@).len() <= usize::MAX,
            PlainRow::HistoryEntry(r) => p + HistoryEntry::spec_bytes(r@).len() <= usize::MAX,
            PlainRow::History(r) => p + History::spec_bytes(r@).len() <= usize::MAX,
            PlainRow::Key(r) => p + Key::spec_bytes(r@).len() <= usize::MAX,
            PlainRow::Label(r) => p + Label::spec_bytes(r@).len() <= usize::MAX,
            PlainRow::PlaylistTreeNode(r) => p + PlaylistTreeNode::spec_bytes(r@).len() <= usize::MAX,
            PlainRow::PlaylistEntry(r) => p + PlaylistEntry::spec_bytes(r@).len() <= usize::MAX,
            PlainRow::ColumnEntry(r) => p + ColumnEntry::spec_bytes(r@).len() <= usize::MAX,
            PlainRow::Menu(r) => p + Menu::spec_bytes(r@).len() <= usize::MAX,
            PlainRow::Track(r) => r.spec_fits_memory(p),
        }
    }

    /// The offsets of the row have the size that its subtype demands.
    pub open spec fn spec_offsets_match(&self) -> bool {
        match self {
            PlainRow::Album(r) => r.offsets.offsets.spec_size() == r.subtype.spec_offset_size(),
            PlainRow::Artist(r) => r.offsets.offsets.spec_size() == r.subtype.spec_offset_size(),
            PlainRow::Track(r) => r.offsets.offsets.spec_size() == r.subtype.spec_offset_size(),
            _ => true,
        }
    }

    /// `buf` after writing the row at `p`.
    pub open spec fn spec_write(&self, buf: Seq<u8>, p: int) -> Seq<u8> {
        match self {
            PlainRow::Album(r) => r.spec_write(buf, p),
            PlainRow::Artist(r) => r.spec_write(buf, p),
            PlainRow::Artwork(r) => codec_write::<Artwork>(r@, buf, p),
            PlainRow::Color(r) => codec_write::<Color>(r@, buf, p),
            PlainRow::Genre(r) => codec_write::<Genre>(r@, buf, p),
            PlainRow::HistoryPlaylist(r) => codec_write::<HistoryPlaylist>(r@, buf, p),
            PlainRow::HistoryEntry(r) => codec_write::<HistoryEntry>(r@, buf, p),
            PlainRow::History(r) => codec_write::<History>(r@, buf, p),
            PlainRow::Key(r) => codec_write::<Key>(r@, buf, p),
            PlainRow::Label(r) => codec_write::<Label>(r@, buf, p),
            PlainRow::PlaylistTreeNode(r) => codec_write::<PlaylistTreeNode>(r@, buf, p),
            PlainRow::PlaylistEntry(r) => codec_write::<PlaylistEntry>(r@, buf, p),
            PlainRow::ColumnEntry(r) => codec_write::<ColumnEntry>(r@, buf, p),
            PlainRow::Menu(r) => codec_write::<Menu>(r@, buf, p),
            PlainRow::Track(r) => r.spec_write(buf, p),
        }
    }

    /// Number of bytes the row takes in a page heap.
    pub open spec fn spec_heap_bytes(&self) -> int {
        match self {
            PlainRow::Album(r) => r.spec_heap_bytes(),
            PlainRow::Artist(r) => r.spec_heap_bytes(),
            PlainRow::Artwork(r) => Artwork::spec_bytes(r@).len() as int,
            PlainRow::Color(r) => Color::spec_bytes(r@).len() as int,
            PlainRow::Genre(r) => Genre::spec_bytes(r@).len() as int,
            PlainRow::HistoryPlaylist(r) => HistoryPlaylist::spec_bytes(r@).len() as int,
            PlainRow::HistoryEntry(r) => HistoryEntry::spec_bytes(r@).len() as int,
            PlainRow::History(r) => History::spec_bytes(r@).len() as int,
            PlainRow::Key(r) => Key::spec_bytes(r@).len() as int,
            PlainRow::Label(r) => Label::spec_bytes(r@).len() as int,
            PlainRow::PlaylistTreeNode(r) => PlaylistTreeNode::spec_bytes(r@).len() as int,
            PlainRow::PlaylistEntry(r) => PlaylistEntry::spec_bytes(r@).len() as int,
            PlainRow::ColumnEntry(r) => ColumnEntry::spec_bytes(r@).len() as int,
            PlainRow::Menu(r) => Menu::spec_bytes(r@).len() as int,
            PlainRow::Track(r) => r.spec_heap_bytes(),
        }
    }

    /// The page type whose pages hold rows of this kind.
    pub fn page_type(&self) -> (r: PlainPageType)
        ensures
            r == self.spec_page_type(),
    {
        match self {
            PlainRow::Album(_) => PlainPageType::Albums,
            PlainRow::Artist(_) => PlainPageType::Artists,
            PlainRow::Artwork(_) => PlainPageType::Artwork,
            PlainRow::Color(_) => PlainPageType::Colors,
            PlainRow::Genre(_) => PlainPageType::Genres,
            PlainRow::HistoryPlaylist(_) => PlainPageType::HistoryPlaylists,
            PlainRow::HistoryEntry(_) => PlainPageType::HistoryEntries,
            PlainRow::History(_) => PlainPageType::History,
            PlainRow::Key(_) => PlainPageType::Keys,
            PlainRow::Label(_) => PlainPageType::Labels,
            PlainRow::PlaylistTreeNode(_) => PlainPageType::PlaylistTree,
            PlainRow::PlaylistEntry(_) => PlainPageType::PlaylistEntries,
            PlainRow::ColumnEntry(_) => PlainPageType::Columns,
            PlainRow::Menu(_) => PlainPageType::Menu,
            PlainRow::Track(_) => PlainPageType::Tracks,
        }
    }

    /// Decodes a row of the kind that pages of type `t` hold, at `pos`.
    pub fn parse(data: &[u8], pos: usize, t: PlainPageType) -> (r: Option<PlainRow>)
        requires
            pos <= data@.len(),
        ensures
            r is Some <==> Self::spec_readable(data@, pos as int, t),
            r matches Some(v) ==> v.spec_read(data@, pos as int) && v.spec_page_type() == t && v.spec_writable(),
    {
        match t {
            PlainPageType::Albums => match Album::parse(data, pos) {
                Some(r) => Some(PlainRow::Album(r)),
                None => None,
            },
            PlainPageType::Artists => match Artist::parse(data, pos) {
                Some(r) => Some(PlainRow::Artist(r)),
                None => None,
            },
            PlainPageType::Artwork => match read_value::<Artwork>(data, pos) {
                Some(r) => Some(PlainRow::Artwork(r)),
                None => None,
            },
            PlainPageType::Colors => match read_value::<Color>(data, pos) {
                Some(r) => Some(PlainRow::Color(r)),
                None => None,
            },
            PlainPageType::Genres => match read_value::<Genre>(data, pos) {
                Some(r) => Some(PlainRow::Genre(r)),
                None => None,
            },
            PlainPageType::HistoryPlaylists => match read_value::<HistoryPlaylist>(data, pos) {
                Some(r) => Some(PlainRow::HistoryPlaylist(r)),
                None => None,
            },
            PlainPageType::HistoryEntries => match read_value::<HistoryEntry>(data, pos) {
                Some(r) => Some(PlainRow::HistoryEntry(r)),
                None => None,
            },
            PlainPageType::History => match read_value::<History>(data, pos) {
                Some(r) => Some(PlainRow::History(r)),
                None => None,
            },
            PlainPageType::Keys => match read_value::<Key>(data, pos) {
                Some(r) => Some(PlainRow::Key(r)),
                None => None,
            },
            PlainPageType::Labels => match read_value::<Label>(data, pos) {
                Some(r) => Some(PlainRow::Label(r)),
                None => None,
            },
            PlainPageType::PlaylistTree => match read_value::<PlaylistTreeNode>(data, pos) {
                Some(r) => Some(PlainRow::PlaylistTreeNode(r)),
                None => None,
            },
            PlainPageType::PlaylistEntries => match read_value::<PlaylistEntry>(data, pos) {
                Some(r) => Some(PlainRow::PlaylistEntry(r)),
                None => None,
            },
            PlainPageType::Columns => match read_value::<ColumnEntry>(data, pos) {
                Some(r) => Some(PlainRow::ColumnEntry(r)),
                None => None,
            },
            PlainPageType::Menu => match read_value::<Menu>(data, pos) {
                Some(r) => Some(PlainRow::Menu(r)),
                None => None,
            },
            PlainPageType::Tracks => match Track::parse(data, pos) {
                Some(r) => Some(PlainRow::Track(r)),
                None => None,
            },
        }
    }

    /// Writes the row at `pos` of `buf`. Fails where the offsets of the row have
    /// another size than its subtype demands, or where the row would reach
    /// beyond the addressable memory.
    pub fn write(&self, buf: &mut Vec<u8>, pos: usize) -> (r: Result<(), OffsetArrayError>)
        requires
            self.spec_writable(),
        ensures
            r is Ok ==> final(buf)@ == self.spec_write(old(buf)@, pos as int),
            !self.spec_offsets_match() ==> r == Err::<(), OffsetArrayError>(OffsetArrayError::OffsetSizeMismatch),
            self.spec_offsets_match() ==> (r is Ok <==> self.spec_fits_memory(pos as int)),
            self.spec_offsets_match() && !self.spec_fits_memory(pos as int) ==> r == Err::<(), OffsetArrayError>(OffsetArrayError::PositionOverflow),
    {
        match self {
            PlainRow::Album(r) => r.write(buf, pos),
            PlainRow::Artist(r) => r.write(buf, pos),
            PlainRow::Artwork(r) => write_value(r, buf, pos),
            PlainRow::Color(r) => write_value(r, buf, pos),
            PlainRow::Genre(r) => write_value(r, buf, pos),
            PlainRow::HistoryPlaylist(r) => write_value(r, buf, pos),
            PlainRow::HistoryEntry(r) => write_value(r, buf, pos),
            PlainRow::History(r) => write_value(r, buf, pos),
            PlainRow::Key(r) => write_value(r, buf, pos),
            PlainRow::Label(r) => write_value(r, buf, pos),
            PlainRow::PlaylistTreeNode(r) => write_value(r, buf, pos),
            PlainRow::PlaylistEntry(r) => write_value(r, buf, pos),
            PlainRow::ColumnEntry(r) => write_value(r, buf, pos),
            PlainRow::Menu(r) => write_value(r, buf, pos),
            PlainRow::Track(r) => r.write(buf, pos),
        }
    }

    /// Number of bytes the row takes in a page heap.
    pub fn heap_bytes_required(&self) -> (r: u16)
        requires
            self.spec_writable(),
            self.spec_heap_bytes() <= u16::MAX,
        ensures
            r == self.spec_heap_bytes(),
    {
        match self {
            PlainRow::Album(r) => r.heap_bytes_required(),
            PlainRow::Artist(r) => r.heap_bytes_required(),
            PlainRow::Artwork(r) => r.byte_len() as u16,
            PlainRow::Color(r) => r.byte_len() as u16,
            PlainRow::Genre(r) => r.byte_len() as u16,
            PlainRow::HistoryPlaylist(r) => r.byte_len() as u16,
            PlainRow::HistoryEntry(r) => r.byte_len() as u16,
            PlainRow::History(r) => r.byte_len() as u16,
            PlainRow::Key(r) => r.byte_len() as u16,
            PlainRow::Label(r) => r.byte_len() as u16,
            PlainRow::PlaylistTreeNode(r) => r.byte_len() as u16,
            PlainRow::PlaylistEntry(r) => r.byte_len() as u16,
            PlainRow::ColumnEntry(r) => r.byte_len() as u16,
            PlainRow::Menu(r) => r.byte_len() as u16,
            PlainRow::Track(r) => r.heap_bytes_required(),
        }
    }
}


/// A table row: its kind follows from the type of the page that holds it.
#[derive(Debug, PartialEq, Eq, Clone)]
pub enum Row {
    /// A row of a plain database (`export.pdb`).
    Plain(PlainRow),
    /// A row of an extended database (`exportExt.pdb`).
    Ext(ExtRow),
    /// A row of a page type whose format (and size) is unknown; it is not decoded.
    Unknown,
}

impl Row {
    /// `self` is the row of a page of type `t` decoded at byte `p` of `s`.
    pub open spec fn spec_read(&self, s: Seq<u8>, p: int, t: PageType) -> bool {
        match (self, t) {
            (Row::Plain(r), PageType::Plain(pt)) => r.spec_page_type() == pt && r.spec_read(s, p),
            (Row::Ext(r), PageType::Ext(et)) => r.spec_page_type() == et && r.spec_read(s, p),
            (Row::Unknown, PageType::Unknown(_)) => true,
            _ => false,
        }
    }

    /// A row of a page of type `t` decodes at byte `p` of `s`; rows of unknown
    /// page types always do, as nothing is read.
    pub open spec fn spec_readable(s: Seq<u8>, p: int, t: PageType) -> bool {
        match t {
            PageType::Plain(pt) => PlainRow::spec_readable(s, p, pt),
            PageType::Ext(et) => ExtRow::spec_readable(s, p, et),
            PageType::Unknown(_) => true,
        }
    }

    /// The row can be written: its strings fit their length fields.
    pub open spec fn spec_writable(&self) -> bool {
        match self {
            Row::Plain(r) => r.spec_writable(),
            Row::Ext(r) => r.spec_writable(),
            Row::Unknown => true,
        }
    }

    /// Every byte that writing the row at `p` writes has an address that a
    /// `usize` can hold; an unknown row writes nothing.
    pub open spec fn spec_fits_memory(&self, p: int) -> bool {
        match self {
            Row::Plain(r) => r.spec_fits_memory(p),
            Row::Ext(r) => r.spec_fits_memory(p),
            Row::Unknown => true,
        }
    }

    /// The offsets of the row have the size that its subtype demands.
    pub open spec fn spec_offsets_match(&self) -> bool {
        match self {
            Row::Plain(r) => r.spec_offsets_match(),
            Row::Ext(r) => r.spec_offsets_match(),
            Row::Unknown => true,
        }
    }

    /// `buf` after writing the row at `p`; an unknown row writes nothing.
    pub open spec fn spec_write(&self, buf: Seq<u8>, p: int) -> Seq<u8> {
        match self {
            Row::Plain(r) => r.spec_write(buf, p),
            Row::Ext(r) => r.spec_write(buf, p),
            Row::Unknown => buf,
        }
    }

    /// Number of bytes a known row takes in a page heap.
    pub open spec fn spec_heap_bytes(&self) -> int {
        match self {
            Row::Plain(r) => r.spec_heap_bytes(),
            Row::Ext(r) => r.spec_heap_bytes(),
            Row::Unknown => 0,
        }
    }

    /// The page type of a known row.
    pub open spec fn spec_page_type(&self) -> Option<PageType> {
        match self {
            Row::Plain(r) => Some(PageType::Plain(r.spec_page_type())),
            Row::Ext(r) => Some(PageType::Ext(r.spec_page_type())),
            Row::Unknown => None,
        }
    }

    /// A known row whose fields and strings can be encoded and decode back to
    /// themselves.
    pub open spec fn spec_wf(&self) -> bool {
        match self {
            Row::Plain(r) => r.spec_wf(),
            Row::Ext(r) => r.spec_wf(),
            Row::Unknown => false,
        }
    }

    /// The strings of the row lie after its offsets without clashing.
    pub open spec fn spec_laid_out(&self) -> bool {
        match self {
            Row::Plain(r) => r.spec_laid_out(),
            Row::Ext(r) => r.spec_laid_out(),
            Row::Unknown => true,
        }
    }

    /// What is written for a row is read back: the bytes that `write` puts at
    /// `p` decode, at `p` and as a row of the row's own page type, to the
    /// row. This holds of every known row whose fields and strings can be
    /// encoded, whose offsets have the size its subtype demands, and whose
    /// strings lie after its offsets without clashing.
    pub proof fn lemma_write_read(&self, buf: Seq<u8>, p: int)
        requires
            0 <= p,
            self.spec_wf(),
            self.spec_laid_out(),
            self.spec_offsets_match(),
        ensures
            self.spec_page_type() matches Some(t) && self.spec_read(self.spec_write(buf, p), p, t),
    {
        self.lemma_write_held(buf, p);
        self.lemma_held_read(self.spec_write(buf, p), p);
    }

    /// Every byte that writing the row at `p` writes lies from `lo` up to
    /// `hi`; an unknown row writes nothing.
    pub open spec fn spec_within(&self, p: int, lo: int, hi: int) -> bool {
        match self {
            Row::Plain(r) => r.spec_within(p, lo, hi),
            Row::Ext(r) => r.spec_within(p, lo, hi),
            Row::Unknown => lo <= p <= hi,
        }
    }

    /// `s` holds the parts of the row where writing it at `p` puts them.
    pub open spec fn spec_held(&self, s: Seq<u8>, p: int) -> bool {
        match self {
            Row::Plain(r) => r.spec_held(s, p),
            Row::Ext(r) => r.spec_held(s, p),
            Row::Unknown => true,
        }
    }

    /// After writing the row at `p`, its parts are held where they were
    /// written, where its strings lie after its offsets without clashing.
    pub proof fn lemma_write_held(&self, buf: Seq<u8>, p: int)
        requires
            0 <= p,
            self.spec_laid_out(),
        ensures
            self.spec_held(self.spec_write(buf, p), p),
    {
        match self {
            Row::Plain(r) => r.lemma_write_held(buf, p),
            Row::Ext(r) => r.lemma_write_held(buf, p),
            Row::Unknown => {},
        }
    }

    /// The parts of a well-formed row held where writing it at `p` puts them
    /// decode to the row.
    pub proof fn lemma_held_read(&self, s: Seq<u8>, p: int)
        requires
            0 <= p,
            self.spec_held(s, p),
            self.spec_wf(),
            self.spec_offsets_match(),
        ensures
            self.spec_page_type() matches Some(t) && self.spec_read(s, p, t),
    {
        match self {
            Row::Plain(r) => r.lemma_held_read(s, p),
            Row::Ext(r) => r.lemma_held_read(s, p),
            Row::Unknown => {},
        }
    }

    /// Writing the row where its bytes lie from `lo2` up to `hi2` keeps the
    /// bytes of a range that does not meet that one.
    pub proof fn lemma_write_agree(&self, buf: Seq<u8>, p: int, lo2: int, hi2: int, lo: int, hi: int)
        requires
            0 <= p,
            self.spec_within(p, lo2, hi2),
            hi2 <= lo || hi <= lo2,
            0 <= lo <= hi <= buf.len(),
        ensures
            agree_on(buf, self.spec_write(buf, p), lo, hi),
            self.spec_write(buf, p).len() >= buf.len(),
    {
        match self {
            Row::Plain(r) => r.lemma_write_agree(buf, p, lo2, hi2, lo, hi),
            Row::Ext(r) => r.lemma_write_agree(buf, p, lo2, hi2, lo, hi),
            Row::Unknown => {},
        }
    }

    /// The parts of the row held within a range stay held where the bytes of
    /// that range stay.
    pub proof fn lemma_held_agree(&self, s1: Seq<u8>, s2: Seq<u8>, p: int, lo: int, hi: int)
        requires
            self.spec_held(s1, p),
            self.spec_within(p, lo, hi),
            agree_on(s1, s2, lo, hi),
        ensures
            self.spec_held(s2, p),
    {
        match self {
            Row::Plain(r) => r.lemma_held_agree(s1, s2, p, lo, hi),
            Row::Ext(r) => r.lemma_held_agree(s1, s2, p, lo, hi),
            Row::Unknown => {},
        }
    }

    /// A row decoded at `p` as a row of page type `t` means a row of that
    /// type decodes there.
    pub proof fn lemma_read_readable(&self, s: Seq<u8>, p: int, t: PageType)
        requires
            self.spec_read(s, p, t),
        ensures
            Self::spec_readable(s, p, t),
    {
    }

    /// Writing the row at `p` keeps the bytes held before `p`.
    pub proof fn lemma_write_keeps_before(&self, buf: Seq<u8>, p: int, q: int, c: Seq<u8>)
        requires
            holds_at(buf, q, c),
            q + c.len() <= p,
        ensures
            holds_at(self.spec_write(buf, p), q, c),
    {
        match self {
            Row::Plain(r) => r.lemma_write_keeps_before(buf, p, q, c),
            Row::Ext(r) => r.lemma_write_keeps_before(buf, p, q, c),
            Row::Unknown => {},
        }
    }

    /// The page type whose pages hold rows of this kind; `None` for an unknown row.
    pub fn page_type(&self) -> (r: Option<PageType>)
        ensures
            r == self.spec_page_type(),
    {
        match self {
            Row::Plain(r) => Some(PageType::Plain(r.page_type())),
            Row::Ext(r) => Some(PageType::Ext(r.page_type())),
            Row::Unknown => None,
        }
    }

    /// Decodes the row of a page of type `t` at `pos`.
    pub fn parse(data: &[u8], pos: usize, t: PageType) -> (r: Option<Row>)
        requires
            pos <= data@.len(),
        ensures
            r is Some <==> Self::spec_readable(data@, pos as int, t),
            r matches Some(v) ==> v.spec_read(data@, pos as int, t) && v.spec_writable(),
    {
        match t {
            PageType::Plain(pt) => match PlainRow::parse(data, pos, pt) {
                Some(r) => Some(Row::Plain(r)),
                None => None,
            },
            PageType::Ext(et) => match ExtRow::parse(data, pos, et) {
                Some(r) => Some(Row::Ext(r)),
                None => None,
            },
            PageType::Unknown(_) => Some(Row::Unknown),
        }
    }

    /// Writes the row at `pos` of `buf`; an unknown row writes nothing.
    pub fn write(&self, buf: &mut Vec<u8>, pos: usize) -> (r: Result<(), OffsetArrayError>)
        requires
            self.spec_writable(),
        ensures
            r is Ok ==> final(buf)@ == self.spec_write(old(buf)@, pos as int),
            !self.spec_offsets_match() ==> r == Err::<(), OffsetArrayError>(
                OffsetArrayError::OffsetSizeMismatch,
            ),
            self.spec_offsets_match() ==> (r is Ok <==> self.spec_fits_memory(pos as int)),
            self.spec_offsets_match() && !self.spec_fits_memory(pos as int) ==> r == Err::<(), OffsetArrayError>(
                OffsetArrayError::PositionOverflow,
            ),
    {
        match self {
            Row::Plain(r) => r.write(buf, pos),
            Row::Ext(r) => r.write(buf, pos),
            Row::Unknown => Ok(()),
        }
    }

    /// Number of bytes the row takes in a page heap; not defined for an unknown row.
    pub fn heap_bytes_required(&self) -> (r: u16)
        requires
            !(self is Unknown),
            self.spec_writable(),
            self.spec_heap_bytes() <= u16::MAX,
        ensures
            r == self.spec_heap_bytes(),
    {
        match self {
            Row::Plain(r) => r.heap_bytes_required(),
            Row::Ext(r) => r.heap_bytes_required(),
            Row::Unknown => 0,
        }
    }
}


/// No row of a known kind decodes at a position beyond the bytes.
pub proof fn lemma_row_unreadable_beyond(s: Seq<u8>, p: int, t: PageType)
    requires
        p > s.len(),
    ensures
        !(t is Unknown) ==> !Row::spec_readable(s, p, t),
{
    match t {
        PageType::Plain(pt) => match pt {
            PlainPageType::Albums => <AlbumHead as Codec>::lemma_parse_bounds(s, p),
            PlainPageType::Artists => <ArtistHead as Codec>::lemma_parse_bounds(s, p),
            PlainPageType::Artwork => Artwork::lemma_parse_bounds(s, p),
            PlainPageType::Colors => Color::lemma_parse_bounds(s, p),
            PlainPageType::Genres => Genre::lemma_parse_bounds(s, p),
            PlainPageType::HistoryPlaylists => HistoryPlaylist::lemma_parse_bounds(s, p),
            PlainPageType::HistoryEntries => HistoryEntry::lemma_parse_bounds(s, p),
            PlainPageType::History => History::lemma_parse_bounds(s, p),
            PlainPageType::Keys => Key::lemma_parse_bounds(s, p),
            PlainPageType::Labels => Label::lemma_parse_bounds(s, p),
            PlainPageType::PlaylistTree => PlaylistTreeNode::lemma_parse_bounds(s, p),
            PlainPageType::PlaylistEntries => PlaylistEntry::lemma_parse_bounds(s, p),
            PlainPageType::Columns => ColumnEntry::lemma_parse_bounds(s, p),
            PlainPageType::Menu => Menu::lemma_parse_bounds(s, p),
            PlainPageType::Tracks => {},
        },
        PageType::Ext(et) => match et {
            ExtPageType::Tag => <crate::pdb::ext::TagOrCategoryHead as Codec>::lemma_parse_bounds(s, p),
            ExtPageType::TrackTag => crate::pdb::ext::TrackTag::lemma_parse_bounds(s, p),
        },
        PageType::Unknown(_) => {},
    }
}


/// A row kind that can be taken out of a generic `Row`.
pub trait RowVariant: Sized {
    /// The page type whose pages hold rows of this kind.
    spec fn spec_page_type() -> PageType;

    /// The row of this kind that `row` holds, if any.
    spec fn spec_from_row(row: Row) -> Option<Self>;

    /// The generic row that holds `v`.
    spec fn spec_into_row(v: Self) -> Row;

    /// The page type whose pages hold rows of this kind.
    fn page_type() -> (r: PageType)
        ensures
            r == Self::spec_page_type(),
    ;

    /// A reference to the row of this kind that `row` holds, if any.
    fn from_row(row: &Row) -> (r: Option<&Self>)
        ensures
            r matches Some(v) ==> Self::spec_from_row(*row) == Some(*v),
            r is None ==> Self::spec_from_row(*row) is None,
    ;

    /// A mutable reference to the row of this kind that `row` holds, if any.
    fn from_row_mut(row: &mut Row) -> (r: Option<&mut Self>)
        ensures
            match r {
                Some(v) => Self::spec_from_row(*old(row)) == Some(*v) && *final(row)
                    == Self::spec_into_row(*final(v)),
                None => Self::spec_from_row(*old(row)) is None && *final(row) == *old(row),
            },
    ;
}

impl RowVariant for Album {
    open spec fn spec_page_type() -> PageType {
        PageType::Plain(PlainPageType::Albums)
    }

    open spec fn spec_from_row(row: Row) -> Option<Album> {
        match row {
            Row::Plain(PlainRow::Album(r)) => Some(r),
            _ => None,
        }
    }

    open spec fn spec_into_row(v: Album) -> Row {
        Row::Plain(PlainRow::Album(v))
    }

    fn page_type() -> (r: PageType) {
        PageType::Plain(PlainPageType::Albums)
    }

    fn from_row(row: &Row) -> (r: Option<&Album>) {
        match row {
            Row::Plain(PlainRow::Album(r)) => Some(r),
            _ => None,
        }
    }

    fn from_row_mut(row: &mut Row) -> (r: Option<&mut Album>) {
        match row {
            Row::Plain(PlainRow::Album(r)) => Some(r),
            _ => None,
        }
    }
}

impl RowVariant for Artist {
    open spec fn spec_page_type() -> PageType {
        PageType::Plain(PlainPageType::Artists)
    }

    open spec fn spec_from_row(row: Row) -> Option<Artist> {
        match row {
            Row::Plain(PlainRow::Artist(r)) => Some(r),
            _ => None,
        }
    }

    open spec fn spec_into_row(v: Artist) -> Row {
        Row::Plain(PlainRow::Artist(v))
    }

    fn page_type() -> (r: PageType) {
        PageType::Plain(PlainPageType::Artists)
    }

    fn from_row(row: &Row) -> (r: Option<&Artist>) {
        match row {
            Row::Plain(PlainRow::Artist(r)) => Some(r),
            _ => None,
        }
    }

    fn from_row_mut(row: &mut Row) -> (r: Option<&mut Artist>) {
        match row {
            Row::Plain(PlainRow::Artist(r)) => Some(r),
            _ => None,
        }
    }
}

impl RowVariant for Artwork {
    open spec fn spec_page_type() -> PageType {
        PageType::Plain(PlainPageType::Artwork)
    }

    open spec fn spec_from_row(row: Row) -> Option<Artwork> {
        match row {
            Row::Plain(PlainRow::Artwork(r)) => Some(r),
            _ => None,
        }
    }

    open spec fn spec_into_row(v: Artwork) -> Row {
        Row::Plain(PlainRow::Artwork(v))
    }

    fn page_type() -> (r: PageType) {
        PageType::Plain(PlainPageType::Artwork)
    }

    fn from_row(row: &Row) -> (r: Option<&Artwork>) {
        match row {
            Row::Plain(PlainRow::Artwork(r)) => Some(r),
            _ => None,
        }
    }

    fn from_row_mut(row: &mut Row) -> (r: Option<&mut Artwork>) {
        match row {
            Row::Plain(PlainRow::Artwork(r)) => Some(r),
            _ => None,
        }
    }
}

impl RowVariant for Color {
    open spec fn spec_page_type() -> PageType {
        PageType::Plain(PlainPageType::Colors)
    }

    open spec fn spec_from_row(row: Row) -> Option<Color> {
        match row {
            Row::Plain(PlainRow::Color(r)) => Some(r),
            _ => None,
        }
    }

    open spec fn spec_into_row(v: Color) -> Row {
        Row::Plain(PlainRow::Color(v))
    }

    fn page_type() -> (r: PageType) {
        PageType::Plain(PlainPageType::Colors)
    }

    fn from_row(row: &Row) -> (r: Option<&Color>) {
        match row {
            Row::Plain(PlainRow::Color(r)) => Some(r),
            _ => None,
        }
    }

    fn from_row_mut(row: &mut Row) -> (r: Option<&mut Color>) {
        match row {
            Row::Plain(PlainRow::Color(r)) => Some(r),
            _ => None,
        }
    }
}

impl RowVariant for Genre {
    open spec fn spec_page_type() -> PageType {
        PageType::Plain(PlainPageType::Genres)
    }

    open spec fn spec_from_row(row: Row) -> Option<Genre> {
        match row {
            Row::Plain(PlainRow::Genre(r)) => Some(r),
            _ => None,
        }
    }

    open spec fn spec_into_row(v: Genre) -> Row {
        Row::Plain(PlainRow::Genre(v))
    }

    fn page_type() -> (r: PageType) {
        PageType::Plain(PlainPageType::Genres)
    }

    fn from_row(row: &Row) -> (r: Option<&Genre>) {
        match row {
            Row::Plain(PlainRow::Genre(r)) => Some(r),
            _ => None,
        }
    }

    fn from_row_mut(row: &mut Row) -> (r: Option<&mut Genre>) {
        match row {
            Row::Plain(PlainRow::Genre(r)) => Some(r),
            _ => None,
        }
    }
}

impl RowVariant for HistoryPlaylist {
    open spec fn spec_page_type() -> PageType {
        PageType::Plain(PlainPageType::HistoryPlaylists)
    }

    open spec fn spec_from_row(row: Row) -> Option<HistoryPlaylist> {
        match row {
            Row::Plain(PlainRow::HistoryPlaylist(r)) => Some(r),
            _ => None,
        }
    }

    open spec fn spec_into_row(v: HistoryPlaylist) -> Row {
        Row::Plain(PlainRow::HistoryPlaylist(v))
    }

    fn page_type() -> (r: PageType) {
        PageType::Plain(PlainPageType::HistoryPlaylists)
    }

    fn from_row(row: &Row) -> (r: Option<&HistoryPlaylist>) {
        match row {
            Row::Plain(PlainRow::HistoryPlaylist(r)) => Some(r),
            _ => None,
        }
    }

    fn from_row_mut(row: &mut Row) -> (r: Option<&mut HistoryPlaylist>) {
        match row {
            Row::Plain(PlainRow::HistoryPlaylist(r)) => Some(r),
            _ => None,
        }
    }
}

impl RowVariant for HistoryEntry {
    open spec fn spec_page_type() -> PageType {
        PageType::Plain(PlainPageType::HistoryEntries)
    }

    open spec fn spec_from_row(row: Row) -> Option<HistoryEntry> {
        match row {
            Row::Plain(PlainRow::HistoryEntry(r)) => Some(r),
            _ => None,
        }
    }

    open spec fn spec_into_row(v: HistoryEntry) -> Row {
        Row::Plain(PlainRow::HistoryEntry(v))
    }

    fn page_type() -> (r: PageType) {
        PageType::Plain(PlainPageType::HistoryEntries)
    }

    fn from_row(row: &Row) -> (r: Option<&HistoryEntry>) {
        match row {
            Row::Plain(PlainRow::HistoryEntry(r)) => Some(r),
            _ => None,
        }
    }

    fn from_row_mut(row: &mut Row) -> (r: Option<&mut HistoryEntry>) {
        match row {
            Row::Plain(PlainRow::HistoryEntry(r)) => Some(r),
            _ => None,
        }
    }
}

impl RowVariant for History {
    open spec fn spec_page_type() -> PageType {
        PageType::Plain(PlainPageType::History)
    }

    open spec fn spec_from_row(row: Row) -> Option<History> {
        match row {
            Row::Plain(PlainRow::History(r)) => Some(r),
            _ => None,
        }
    }

    open spec fn spec_into_row(v: History) -> Row {
        Row::Plain(PlainRow::History(v))
    }

    fn page_type() -> (r: PageType) {
        PageType::Plain(PlainPageType::History)
    }

    fn from_row(row: &Row) -> (r: Option<&History>) {
        match row {
            Row::Plain(PlainRow::History(r)) => Some(r),
            _ => None,
        }
    }

    fn from_row_mut(row: &mut Row) -> (r: Option<&mut History>) {
        match row {
            Row::Plain(PlainRow::History(r)) => Some(r),
            _ => None,
        }
    }
}

impl RowVariant for Key {
    open spec fn spec_page_type() -> PageType {
        PageType::Plain(PlainPageType::Keys)
    }

    open spec fn spec_from_row(row: Row) -> Option<Key> {
        match row {
            Row::Plain(PlainRow::Key(r)) => Some(r),
            _ => None,
        }
    }

    open spec fn spec_into_row(v: Key) -> Row {
        Row::Plain(PlainRow::Key(v))
    }

    fn page_type() -> (r: PageType) {
        PageType::Plain(PlainPageType::Keys)
    }

    fn from_row(row: &Row) -> (r: Option<&Key>) {
        match row {
            Row::Plain(PlainRow::Key(r)) => Some(r),
            _ => None,
        }
    }

    fn from_row_mut(row: &mut Row) -> (r: Option<&mut Key>) {
        match row {
            Row::Plain(PlainRow::Key(r)) => Some(r),
            _ => None,
        }
    }
}

impl RowVariant for Label {
    open spec fn spec_page_type() -> PageType {
        PageType::Plain(PlainPageType::Labels)
    }

    open spec fn spec_from_row(row: Row) -> Option<Label> {
        match row {
            Row::Plain(PlainRow::Label(r)) => Some(r),
            _ => None,
        }
    }

    open spec fn spec_into_row(v: Label) -> Row {
        Row::Plain(PlainRow::Label(v))
    }

    fn page_type() -> (r: PageType) {
        PageType::Plain(PlainPageType::Labels)
    }

    fn from_row(row: &Row) -> (r: Option<&Label>) {
        match row {
            Row::Plain(PlainRow::Label(r)) => Some(r),
            _ => None,
        }
    }

    fn from_row_mut(row: &mut Row) -> (r: Option<&mut Label>) {
        match row {
            Row::Plain(PlainRow::Label(r)) => Some(r),
            _ => None,
        }
    }
}

impl RowVariant for PlaylistTreeNode {
    open spec fn spec_page_type() -> PageType {
        PageType::Plain(PlainPageType::PlaylistTree)
    }

    open spec fn spec_from_row(row: Row) -> Option<PlaylistTreeNode> {
        match row {
            Row::Plain(PlainRow::PlaylistTreeNode(r)) => Some(r),
            _ => None,
        }
    }

    open spec fn spec_into_row(v: PlaylistTreeNode) -> Row {
        Row::Plain(PlainRow::PlaylistTreeNode(v))
    }

    fn page_type() -> (r: PageType) {
        PageType::Plain(PlainPageType::PlaylistTree)
    }

    fn from_row(row: &Row) -> (r: Option<&PlaylistTreeNode>) {
        match row {
            Row::Plain(PlainRow::PlaylistTreeNode(r)) => Some(r),
            _ => None,
        }
    }

    fn from_row_mut(row: &mut Row) -> (r: Option<&mut PlaylistTreeNode>) {
        match row {
            Row::Plain(PlainRow::PlaylistTreeNode(r)) => Some(r),
            _ => None,
        }
    }
}

impl RowVariant for PlaylistEntry {
    open spec fn spec_page_type() -> PageType {
        PageType::Plain(PlainPageType::PlaylistEntries)
    }

    open spec fn spec_from_row(row: Row) -> Option<PlaylistEntry> {
        match row {
            Row::Plain(PlainRow::PlaylistEntry(r)) => Some(r),
            _ => None,
        }
    }

    open spec fn spec_into_row(v: PlaylistEntry) -> Row {
        Row::Plain(PlainRow::PlaylistEntry(v))
    }

    fn page_type() -> (r: PageType) {
        PageType::Plain(PlainPageType::PlaylistEntries)
    }

    fn from_row(row: &Row) -> (r: Option<&PlaylistEntry>) {
        match row {
            Row::Plain(PlainRow::PlaylistEntry(r)) => Some(r),
            _ => None,
        }
    }

    fn from_row_mut(row: &mut Row) -> (r: Option<&mut PlaylistEntry>) {
        match row {
            Row::Plain(PlainRow::PlaylistEntry(r)) => Some(r),
            _ => None,
        }
    }
}

impl RowVariant for ColumnEntry {
    open spec fn spec_page_type() -> PageType {
        PageType::Plain(PlainPageType::Columns)
    }

    open spec fn spec_from_row(row: Row) -> Option<ColumnEntry> {
        match row {
            Row::Plain(PlainRow::ColumnEntry(r)) => Some(r),
            _ => None,
        }
    }

    open spec fn spec_into_row(v: ColumnEntry) -> Row {
        Row::Plain(PlainRow::ColumnEntry(v))
    }

    fn page_type() -> (r: PageType) {
        PageType::Plain(PlainPageType::Columns)
    }

    fn from_row(row: &Row) -> (r: Option<&ColumnEntry>) {
        match row {
            Row::Plain(PlainRow::ColumnEntry(r)) => Some(r),
            _ => None,
        }
    }

    fn from_row_mut(row: &mut Row) -> (r: Option<&mut ColumnEntry>) {
        match row {
            Row::Plain(PlainRow::ColumnEntry(r)) => Some(r),
            _ => None,
        }
    }
}

impl RowVariant for Menu {
    open spec fn spec_page_type() -> PageType {
        PageType::Plain(PlainPageType::Menu)
    }

    open spec fn spec_from_row(row: Row) -> Option<Menu> {
        match row {
            Row::Plain(PlainRow::Menu(r)) => Some(r),
            _ => None,
        }
    }

    open spec fn spec_into_row(v: Menu) -> Row {
        Row::Plain(PlainRow::Menu(v))
    }

    fn page_type() -> (r: PageType) {
        PageType::Plain(PlainPageType::Menu)
    }

    fn from_row(row: &Row) -> (r: Option<&Menu>) {
        match row {
            Row::Plain(PlainRow::Menu(r)) => Some(r),
            _ => None,
        }
    }

    fn from_row_mut(row: &mut Row) -> (r: Option<&mut Menu>) {
        match row {
            Row::Plain(PlainRow::Menu(r)) => Some(r),
            _ => None,
        }
    }
}

impl RowVariant for Track {
    open spec fn spec_page_type() -> PageType {
        PageType::Plain(PlainPageType::Tracks)
    }

    open spec fn spec_from_row(row: Row) -> Option<Track> {
        match row {
            Row::Plain(PlainRow::Track(r)) => Some(r),
            _ => None,
        }
    }

    open spec fn spec_into_row(v: Track) -> Row {
        Row::Plain(PlainRow::Track(v))
    }

    fn page_type() -> (r: PageType) {
        PageType::Plain(PlainPageType::Tracks)
    }

    fn from_row(row: &Row) -> (r: Option<&Track>) {
        match row {
            Row::Plain(PlainRow::Track(r)) => Some(r),
            _ => None,
        }
    }

    fn from_row_mut(row: &mut Row) -> (r: Option<&mut Track>) {
        match row {
            Row::Plain(PlainRow::Track(r)) => Some(r),
            _ => None,
        }
    }
}

impl Row {
    /// A reference to the row of kind `T` that this row holds, if any.
    pub fn as_variant<T: RowVariant>(&self) -> (r: Option<&T>)
        ensures
            r matches Some(v) ==> T::spec_from_row(*self) == Some(*v),
            r is None ==> T::spec_from_row(*self) is None,
    {
        T::from_row(self)
    }

    /// A mutable reference to the row of kind `T` that this row holds, if any.
    pub fn as_variant_mut<T: RowVariant>(&mut self) -> (r: Option<&mut T>)
        ensures
            match r {
                Some(v) => T::spec_from_row(*old(self)) == Some(*v) && *final(self)
                    == T::spec_into_row(*final(v)),
                None => T::spec_from_row(*old(self)) is None && *final(self) == *old(self),
            },
    {
        T::from_row_mut(self)
    }
}

impl PlaylistTreeNode {
    /// Whether the node is a folder (its flag is non-zero) rather than a playlist.
    pub fn is_folder(&self) -> (r: bool)
        ensures
            r == (self.node_is_folder > 0),
    {
        self.node_is_folder > 0
    }
}

/// The codes of the menu visibility: 0 visible, 1 hidden, every other byte
/// kept as it is; reading a byte and writing the visibility back gives the
/// byte again, and visible and hidden read back from their codes.
pub proof fn lemma_menu_visibility_codes()
    ensures
        MenuVisibility::Visible.spec_to_u8() == 0,
        MenuVisibility::Hidden.spec_to_u8() == 1,
        forall|v: u8| #[trigger] MenuVisibility::spec_from_u8(v).spec_to_u8() == v,
        forall|v: u8| v > 1 ==> #[trigger] MenuVisibility::spec_from_u8(v) == MenuVisibility::Unknown(v),
        MenuVisibility::spec_from_u8(0) == MenuVisibility::Visible,
        MenuVisibility::spec_from_u8(1) == MenuVisibility::Hidden,
{
}

} // verus!
