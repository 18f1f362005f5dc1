//! Small value types shared by the database formats.

use crate::codec::{bytes16, le16, lemma_le16_bytes16, push_u16, read_u16, Codec};
use crate::pdb::page::PageError;
use crate::pdb::string::StringError;
use crate::pdb::{PageIndex, PageType, PdbError};
use vstd::prelude::*;

verus! {

/// Position of a table in the list of tables of a PDB header.
#[derive(Debug, PartialEq, Eq, Clone, Copy, Structural)]
pub struct TableIndex(pub usize);

/// Color label of a track.
#[derive(Debug, PartialEq, Eq, Clone, Copy, Structural)]
pub enum ColorIndex {
    /// No color.
    NoColor,
    /// Pink.
    Pink,
    /// Red.
    Red,
    /// Orange.
    Orange,
    /// Yellow.
    Yellow,
    /// Green.
    Green,
    /// Aqua.
    Aqua,
    /// Blue.
    Blue,
    /// Purple.
    Purple,
}

impl ColorIndex {
    /// The color stored as byte `v`, if `v` names one.
    pub open spec fn spec_from_u8(v: u8) -> Option<ColorIndex> {
        if v == 0 {
            Some(ColorIndex::NoColor)
        } else if v == 1 {
            Some(ColorIndex::Pink)
        } else if v == 2 {
            Some(ColorIndex::Red)
        } else if v == 3 {
            Some(ColorIndex::Orange)
        } else if v == 4 {
            Some(ColorIndex::Yellow)
        } else if v == 5 {
            Some(ColorIndex::Green)
        } else if v == 6 {
            Some(ColorIndex::Aqua)
        } else if v == 7 {
            Some(ColorIndex::Blue)
        } else if v == 8 {
            Some(ColorIndex::Purple)
        } else {
            None
        }
    }

    /// The byte that stores the color.
    pub open spec fn spec_to_u8(self) -> u8 {
        match self {
            ColorIndex::NoColor => 0,
            ColorIndex::Pink => 1,
            ColorIndex::Red => 2,
            ColorIndex::Orange => 3,
            ColorIndex::Yellow => 4,
            ColorIndex::Green => 5,
            ColorIndex::Aqua => 6,
            ColorIndex::Blue => 7,
            ColorIndex::Purple => 8,
        }
    }

    /// The color stored as byte `v`, if `v` names one.
    pub fn from_u8(v: u8) -> (r: Option<ColorIndex>)
        ensures
            r == Self::spec_from_u8(v),
    {
        match v {
            0 => Some(ColorIndex::NoColor),
            1 => Some(ColorIndex::Pink),
            2 => Some(ColorIndex::Red),
            3 => Some(ColorIndex::Orange),
            4 => Some(ColorIndex::Yellow),
            5 => Some(ColorIndex::Green),
            6 => Some(ColorIndex::Aqua),
            7 => Some(ColorIndex::Blue),
            8 => Some(ColorIndex::Purple),
            _ => None,
        }
    }

    /// The byte that stores the color.
    pub fn to_u8(&self) -> (r: u8)
        ensures
            r == self.spec_to_u8(),
    {
        match self {
            ColorIndex::NoColor => 0,
            ColorIndex::Pink => 1,
            ColorIndex::Red => 2,
            ColorIndex::Orange => 3,
            ColorIndex::Yellow => 4,
            ColorIndex::Green => 5,
            ColorIndex::Aqua => 6,
            ColorIndex::Blue => 7,
            ColorIndex::Purple => 8,
        }
    }
}

/// Audio file format of a track.
#[derive(Debug, PartialEq, Eq, Clone, Copy, Structural)]
pub enum FileType {
    /// Unknown format.
    Unknown,
    /// MPEG-1 Audio Layer III.
    Mp3,
    /// MPEG-4 audio.
    M4a,
    /// Free Lossless Audio Codec.
    Flac,
    /// Waveform audio.
    Wav,
    /// Audio Interchange File Format.
    Aiff,
    /// A code that names none of the formats above.
    Other(u16),
}

impl FileType {
    /// The format stored as `v`.
    pub open spec fn spec_from_u16(v: u16) -> FileType {
        if v == 0 {
            FileType::Unknown
        } else if v == 1 {
            FileType::Mp3
        } else if v == 4 {
            FileType::M4a
        } else if v == 5 {
            FileType::Flac
        } else if v == 11 {
            FileType::Wav
        } else if v == 12 {
            FileType::Aiff
        } else {
            FileType::Other(v)
        }
    }

    /// The code that stores the format.
    pub open spec fn spec_to_u16(self) -> u16 {
        match self {
            FileType::Unknown => 0,
            FileType::Mp3 => 1,
            FileType::M4a => 4,
            FileType::Flac => 5,
            FileType::Wav => 11,
            FileType::Aiff => 12,
            FileType::Other(v) => v,
        }
    }

    /// The format stored as `v`.
    pub fn from_u16(v: u16) -> (r: FileType)
        ensures
            r == Self::spec_from_u16(v),
    {
        match v {
            0 => FileType::Unknown,
            1 => FileType::Mp3,
            4 => FileType::M4a,
            5 => FileType::Flac,
            11 => FileType::Wav,
            12 => FileType::Aiff,
            _ => FileType::Other(v),
        }
    }

    /// The code that stores the format.
    pub fn to_u16(&self) -> (r: u16)
        ensures
            r == self.spec_to_u16(),
    {
        match self {
            FileType::Unknown => 0,
            FileType::Mp3 => 1,
            FileType::M4a => 4,
            FileType::Flac => 5,
            FileType::Wav => 11,
            FileType::Aiff => 12,
            FileType::Other(v) => *v,
        }
    }
}


impl View for ColorIndex {
    type V = ColorIndex;

    open spec fn view(&self) -> ColorIndex {
        *self
    }
}

/// A color is stored as one byte; bytes that name no color do not decode.
impl Codec for ColorIndex {
    open spec fn spec_bytes(v: ColorIndex) -> Seq<u8> {
        seq![v.spec_to_u8()]
    }

    open spec fn spec_parse(s: Seq<u8>, p: int) -> Option<(ColorIndex, int)> {
        if 0 <= p < s.len() && ColorIndex::spec_from_u8(s[p]) is Some {
            Some((ColorIndex::spec_from_u8(s[p])->0, p + 1))
        } else {
            None
        }
    }

    open spec fn spec_wf(v: ColorIndex) -> bool {
        true
    }

    open spec fn spec_writable(v: ColorIndex) -> bool {
        true
    }

    proof fn lemma_parse_bounds(s: Seq<u8>, p: int) {
    }

    proof fn lemma_parse_writable(s: Seq<u8>, p: int) {
    }

    proof fn lemma_roundtrip(v: ColorIndex, pre: Seq<u8>, post: Seq<u8>) {
        assert((pre + seq![v.spec_to_u8()] + post)[pre.len() as int] == v.spec_to_u8());
    }

    fn parse(data: &[u8], pos: usize) -> (r: Option<(ColorIndex, usize)>) {
        if pos < data.len() {
            match ColorIndex::from_u8(data[pos]) {
                Some(c) => Some((c, pos + 1)),
                None => None,
            }
        } else {
            None
        }
    }

    fn byte_len(&self) -> (r: usize) {
        1
    }

    fn serialize(&self, out: &mut Vec<u8>) {
        out.push(self.to_u8());
    }
}

impl View for FileType {
    type V = FileType;

    open spec fn view(&self) -> FileType {
        *self
    }
}

/// A file type is stored as a little-endian `u16`; `Other` keeps the numbers
/// that name no known type.
impl Codec for FileType {
    open spec fn spec_bytes(v: FileType) -> Seq<u8> {
        bytes16(v.spec_to_u16())
    }

    open spec fn spec_parse(s: Seq<u8>, p: int) -> Option<(FileType, int)> {
        if 0 <= p && p + 2 <= s.len() {
            Some((FileType::spec_from_u16(le16(s, p)), p + 2))
        } else {
            None
        }
    }

    open spec fn spec_wf(v: FileType) -> bool {
        FileType::spec_from_u16(v.spec_to_u16()) == v
    }

    open spec fn spec_writable(v: FileType) -> bool {
        true
    }

    proof fn lemma_parse_bounds(s: Seq<u8>, p: int) {
    }

    proof fn lemma_parse_writable(s: Seq<u8>, p: int) {
    }

    proof fn lemma_roundtrip(v: FileType, pre: Seq<u8>, post: Seq<u8>) {
        lemma_le16_bytes16(pre, v.spec_to_u16(), post);
    }

    fn parse(data: &[u8], pos: usize) -> (r: Option<(FileType, usize)>) {
        if data.len() - pos >= 2 {
            Some((FileType::from_u16(read_u16(data, pos)), pos + 2))
        } else {
            None
        }
    }

    fn byte_len(&self) -> (r: usize) {
        2
    }

    fn serialize(&self, out: &mut Vec<u8>) {
        push_u16(out, self.to_u16());
    }
}


/// The errors of reading and changing a database.
#[derive(Debug, PartialEq, Eq, Clone, Copy)]
pub enum RekordcrateError {
    /// A value was refused by a constructor of the PDB format.
    Pdb(PdbError),
    /// The file header could not be decoded.
    HeaderNotReadable,
    /// The page with this index could not be decoded.
    PageNotReadable(PageIndex),
    /// No page with this index exists.
    PageNotPresent(PageIndex),
    /// No table with this index exists.
    TableNotPresent(TableIndex),
    /// No table holds pages of this type.
    TableTypeNotPresent(PageType),
    /// A table links to a page that does not come after the previous one.
    PageOrderViolation(PageIndex),
    /// The database is not consistent; the text says how.
    IntegrityError(&'static str),
    /// A track row takes fewer heap bytes than players expect.
    TrackRowTooSmall {
        /// ID of the track.
        track_id: u32,
        /// Heap bytes the row takes, rounded up to four.
        allocated: u16,
        /// Heap bytes a track row must take at least.
        minimum: u16,
    },
    /// The row has no known kind, so it cannot be stored.
    UnknownRowType,
    /// A page could not be written.
    Write(PageError),
    /// A string could not be encoded.
    String(StringError),
}

/// The codes of the file types: 0 unknown, 1 MP3, 4 M4A, 5 FLAC, 11 WAV and
/// 12 AIFF; every other code is kept as it is. Reading a code and writing the
/// type back gives the code again, and a named type reads back from its code.
pub proof fn lemma_file_type_codes()
    ensures
        FileType::Unknown.spec_to_u16() == 0,
        FileType::Mp3.spec_to_u16() == 1,
        FileType::M4a.spec_to_u16() == 4,
        FileType::Flac.spec_to_u16() == 5,
        FileType::Wav.spec_to_u16() == 11,
        FileType::Aiff.spec_to_u16() == 12,
        forall|v: u16| #[trigger] FileType::spec_from_u16(v).spec_to_u16() == v,
        forall|v: u16|
            !(v == 0 || v == 1 || v == 4 || v == 5 || v == 11 || v == 12) ==> #[trigger] FileType::spec_from_u16(v)
                == FileType::Other(v),
        forall|t: FileType| !(t is Other) ==> #[trigger] FileType::spec_from_u16(t.spec_to_u16()) == t,
{
}

/// The codes of the color labels: 0 no color, then 1 pink, 2 red, 3 orange,
/// 4 yellow, 5 green, 6 aqua, 7 blue and 8 purple; no other byte names a
/// color. Every color reads back from its code, and every code that names a
/// color is that color's code.
pub proof fn lemma_color_codes()
    ensures
        ColorIndex::NoColor.spec_to_u8() == 0,
        ColorIndex::Pink.spec_to_u8() == 1,
        ColorIndex::Red.spec_to_u8() == 2,
        ColorIndex::Orange.spec_to_u8() == 3,
        ColorIndex::Yellow.spec_to_u8() == 4,
        ColorIndex::Green.spec_to_u8() == 5,
        ColorIndex::Aqua.spec_to_u8() == 6,
        ColorIndex::Blue.spec_to_u8() == 7,
        ColorIndex::Purple.spec_to_u8() == 8,
        forall|v: u8| #[trigger] ColorIndex::spec_from_u8(v) is None <==> v > 8,
        forall|v: u8| #[trigger] ColorIndex::spec_from_u8(v) matches Some(c) ==> c.spec_to_u8() == v,
        forall|c: ColorIndex| #[trigger] ColorIndex::spec_from_u8(c.spec_to_u8()) == Some(c),
{
}

} // verus!
