//! DeviceSQL strings: the string format of the PDB database.
//!
//! A string is either a short ASCII string (one header byte holding the length)
//! or a long string (flags, a 16-bit length, a padding byte, then the content as
//! ASCII, as UTF-16LE, or as the odd null-terminated form used for ISRC codes).

use crate::codec::{bytes16, le16, lemma_le16_sub, push_u16, read_u16, Codec};
use vstd::prelude::*;
use vstd::string::StringExecFnsIsAscii;
use vstd::utf8::{
    char_is_scalar, char_u32_cast, decode_utf8, encode_utf8, encode_utf8_decode_utf8,
    encode_utf8_valid_utf8, is_ascii_chars, valid_utf8,
};

verus! {

/// Longest content of a short ASCII string, in bytes.
pub const MAX_SHORTSTR_SIZE: usize = 126;

/// Longest string, in UTF-8 bytes, that `DeviceSQLString::new` accepts.
pub const MAX_STRING_SIZE: usize = 32767;

/// Error when creating or decoding a `DeviceSQLString`.
#[derive(Debug, PartialEq, Eq, Copy, Clone, Structural)]
pub enum StringError {
    /// The string is too long for DeviceSQL.
    TooLong,
    /// The string is not a valid ISRC specifier.
    InvalidISRC,
    /// The content is not valid UTF-8 or UTF-16.
    Encoding,
}

/// The UTF-16 code units of one character.
pub open spec fn utf16_of_char(c: char) -> Seq<u16> {
    let v = c as u32;
    if v < 0x10000 {
        seq![v as u16]
    } else {
        let w = v - 0x10000;
        seq![(0xD800 + w / 1024) as u16, (0xDC00 + w % 1024) as u16]
    }
}

/// The UTF-16 encoding of a character sequence.
pub open spec fn utf16_units(cs: Seq<char>) -> Seq<u16>
    decreases cs.len(),
{
    if cs.len() == 0 {
        Seq::empty()
    } else {
        utf16_of_char(cs[0]) + utf16_units(cs.drop_first())
    }
}

/// The first code unit of a character tells how many units it takes.
proof fn lemma_utf16_of_char(c: char)
    ensures
        utf16_of_char(c).len() >= 1,
        utf16_of_char(c).len() == 1 <==> !(0xD800 <= utf16_of_char(c)[0] <= 0xDFFF),
{
    char_is_scalar(c);
}

/// Different character sequences have different UTF-16 encodings.
pub proof fn lemma_utf16_units_injective(a: Seq<char>, b: Seq<char>)
    requires
        utf16_units(a) == utf16_units(b),
    ensures
        a == b,
    decreases a.len(),
{
    if a.len() == 0 {
        if b.len() > 0 {
            lemma_utf16_of_char(b[0]);
            assert(utf16_units(b) == utf16_of_char(b[0]) + utf16_units(b.drop_first()));
            assert(utf16_units(b).len() >= 1);
            assert(false);
        }
        assert(a =~= b);
    } else if b.len() == 0 {
        lemma_utf16_of_char(a[0]);
        assert(utf16_units(a) == utf16_of_char(a[0]) + utf16_units(a.drop_first()));
        assert(utf16_units(a).len() >= 1);
        assert(false);
    } else {
        let ua = utf16_of_char(a[0]);
        let ub = utf16_of_char(b[0]);
        let u = utf16_units(a);
        lemma_utf16_of_char(a[0]);
        lemma_utf16_of_char(b[0]);
        assert(u == ua + utf16_units(a.drop_first()));
        assert(u == ub + utf16_units(b.drop_first()));
        assert(u[0] == ua[0]);
        assert(u[0] == ub[0]);
        assert(ua.len() == ub.len());
        assert(u.subrange(0, ua.len() as int) =~= ua);
        assert(u.subrange(0, ub.len() as int) =~= ub);
        assert(ua == ub);
        let va = a[0] as u32;
        let vb = b[0] as u32;
        char_is_scalar(a[0]);
        char_is_scalar(b[0]);
        if va < 0x10000 {
            assert(va == vb);
        } else {
            let wa = va - 0x10000;
            let wb = vb - 0x10000;
            assert(wa / 1024 == wb / 1024);
            assert(wa % 1024 == wb % 1024);
            assert(va == vb);
        }
        char_u32_cast(a[0], va);
        char_u32_cast(b[0], vb);
        assert(utf16_units(a.drop_first()) =~= u.skip(ua.len() as int));
        assert(utf16_units(b.drop_first()) =~= u.skip(ub.len() as int));
        lemma_utf16_units_injective(a.drop_first(), b.drop_first());
        assert(a =~= b) by {
            assert forall|i: int| 0 <= i < a.len() implies a[i] == b[i] by {
                if i > 0 {
                    assert(a[i] == a.drop_first()[i - 1]);
                    assert(b[i] == b.drop_first()[i - 1]);
                }
            }
        }
    }
}

/// The little-endian bytes of a sequence of `u16`s.
pub open spec fn u16s_bytes(u: Seq<u16>) -> Seq<u8>
    decreases u.len(),
{
    if u.len() == 0 {
        Seq::empty()
    } else {
        u16s_bytes(u.drop_last()) + bytes16(u.last())
    }
}

/// The `n` little-endian `u16`s from byte `q` of `s` on.
pub open spec fn u16s_at(s: Seq<u8>, q: int, n: nat) -> Seq<u16> {
    Seq::new(n, |i: int| le16(s, q + 2 * i))
}

/// The position of the first zero byte of `s` at or after `q`.
pub open spec fn first_zero_from(s: Seq<u8>, q: int) -> Option<int>
    decreases s.len() - q,
{
    if q < 0 || q >= s.len() {
        None
    } else if s[q] == 0 {
        Some(q)
    } else {
        first_zero_from(s, q + 1)
    }
}

/// The abstract content of a DeviceSQL string, one case per encoding.
pub enum DeviceSQLStringModel {
    /// A short ASCII string (its bytes).
    Short(Seq<u8>),
    /// A long ASCII string (its bytes).
    Ascii(Seq<u8>),
    /// A long UTF-16LE string (its code units).
    Ucs2le(Seq<u16>),
    /// An ISRC code in the null-terminated long form (its bytes).
    Isrc(Seq<u8>),
}

impl DeviceSQLStringModel {
    /// Number of content bytes of a long string, as stored in its length field.
    pub open spec fn byte_count(self) -> int {
        match self {
            DeviceSQLStringModel::Short(c) => c.len() as int,
            DeviceSQLStringModel::Ascii(c) => c.len() as int,
            DeviceSQLStringModel::Ucs2le(u) => 2 * u.len() as int,
            DeviceSQLStringModel::Isrc(b) => b.len() as int + 2,
        }
    }

    /// The bytes that encode the string.
    pub open spec fn spec_bytes(self) -> Seq<u8> {
        match self {
            DeviceSQLStringModel::Short(c) => seq![((2 * c.len() + 3) % 256) as u8] + c,
            DeviceSQLStringModel::Ascii(c) => seq![0x40u8] + bytes16((c.len() + 4) as u16) + seq![
                0u8,
            ] + c,
            DeviceSQLStringModel::Ucs2le(u) => seq![0x90u8] + bytes16((2 * u.len() + 4) as u16)
                + seq![0u8] + u16s_bytes(u),
            DeviceSQLStringModel::Isrc(b) => seq![0x90u8] + bytes16((b.len() + 6) as u16) + seq![
                0u8,
            ] + seq![3u8] + b + seq![0u8],
        }
    }

    /// The string can be written: a short string's header holds its length,
    /// a long string's length field holds its size.
    pub open spec fn spec_writable(self) -> bool {
        match self {
            DeviceSQLStringModel::Short(c) => c.len() <= MAX_SHORTSTR_SIZE,
            _ => self.byte_count() + 4 <= u16::MAX,
        }
    }

    /// The string decodes back to itself from its bytes, whatever follows them.
    pub open spec fn spec_wf(self) -> bool {
        &&& self.spec_writable()
        &&& match self {
            DeviceSQLStringModel::Short(c) => c.len() <= MAX_SHORTSTR_SIZE,
            DeviceSQLStringModel::Ascii(c) => true,
            DeviceSQLStringModel::Ucs2le(u) => u.len() > 0 && u[0] % 256 != 3,
            DeviceSQLStringModel::Isrc(b) => forall|i: int| 0 <= i < b.len() ==> b[i] != 0,
        }
    }

    /// The string encoded at byte `p` of `s`, with the position after it.
    pub open spec fn spec_parse(s: Seq<u8>, p: int) -> Option<(DeviceSQLStringModel, int)> {
        if !(0 <= p < s.len()) {
            None
        } else {
            let h = s[p];
            if h % 2 == 1 {
                let n = h / 2 - 1;
                if h / 2 >= 1 && p + 1 + n <= s.len() {
                    Some((DeviceSQLStringModel::Short(s.subrange(p + 1, p + 1 + n)), p + 1 + n))
                } else {
                    None
                }
            } else if p + 4 <= s.len() && s[p + 3] == 0 && le16(s, p + 1) >= 4 {
                let l = le16(s, p + 1) - 4;
                let q = p + 4;
                if h == 0x90 && q < s.len() && s[q] == 3 && first_zero_from(s, q + 1) is Some
                    && first_zero_from(s, q + 1)->0 - (q + 1) + 6 <= u16::MAX {
                    let z = first_zero_from(s, q + 1)->0;
                    Some((DeviceSQLStringModel::Isrc(s.subrange(q + 1, z)), z + 1))
                } else if h == 0x40 && q + l <= s.len() {
                    Some((DeviceSQLStringModel::Ascii(s.subrange(q, q + l)), q + l))
                } else if h == 0x90 && l % 2 == 0 && q + l <= s.len() {
                    Some((DeviceSQLStringModel::Ucs2le(u16s_at(s, q, (l / 2) as nat)), q + l))
                } else {
                    None
                }
            } else {
                None
            }
        }
    }

    /// The characters the string decodes to, or why it does not decode.
    pub open spec fn spec_into_string(self) -> Result<Seq<char>, StringError> {
        match self {
            DeviceSQLStringModel::Ucs2le(u) => if exists|cs: Seq<char>| utf16_units(cs) == u {
                Ok(choose|cs: Seq<char>| utf16_units(cs) == u)
            } else {
                Err(StringError::Encoding)
            },
            DeviceSQLStringModel::Short(c) | DeviceSQLStringModel::Ascii(c)
            | DeviceSQLStringModel::Isrc(c) => if valid_utf8(c) {
                Ok(decode_utf8(c))
            } else {
                Err(StringError::Encoding)
            },
        }
    }

    /// What `DeviceSQLString::new` makes of the characters `cs`.
    pub open spec fn spec_new(cs: Seq<char>) -> Result<DeviceSQLStringModel, StringError> {
        let bytes = encode_utf8(cs);
        if is_ascii_chars(cs) && bytes.len() <= MAX_SHORTSTR_SIZE {
            Ok(DeviceSQLStringModel::Short(bytes))
        } else if bytes.len() <= MAX_STRING_SIZE {
            if is_ascii_chars(cs) {
                Ok(DeviceSQLStringModel::Ascii(bytes))
            } else {
                Ok(DeviceSQLStringModel::Ucs2le(utf16_units(cs)))
            }
        } else {
            Err(StringError::TooLong)
        }
    }
}


/// The bytes of `n` `u16`s are two per value, each pair encoding its value.
pub proof fn lemma_u16s_bytes(u: Seq<u16>)
    ensures
        u16s_bytes(u).len() == 2 * u.len(),
        forall|i: int|
            0 <= i < u.len() ==> #[trigger] u16s_bytes(u).subrange(2 * i, 2 * i + 2) == bytes16(
                u[i],
            ),
    decreases u.len(),
{
    if u.len() > 0 {
        let init = u.drop_last();
        lemma_u16s_bytes(init);
        let b = u16s_bytes(u);
        assert forall|i: int| 0 <= i < u.len() implies #[trigger] b.subrange(2 * i, 2 * i + 2)
            == bytes16(u[i]) by {
            if i < init.len() {
                assert(b.subrange(2 * i, 2 * i + 2) =~= u16s_bytes(init).subrange(2 * i, 2 * i + 2));
            } else {
                assert(b.subrange(2 * i, 2 * i + 2) =~= bytes16(u.last()));
            }
        }
    }
}

/// Decoding the bytes of `u16`s, wherever they stand, gives the values back.
pub proof fn lemma_u16s_roundtrip(u: Seq<u16>, pre: Seq<u8>, post: Seq<u8>)
    ensures
        u16s_at(pre + u16s_bytes(u) + post, pre.len() as int, u.len()) == u,
{
    lemma_u16s_bytes(u);
    let s = pre + u16s_bytes(u) + post;
    let p = pre.len() as int;
    assert forall|i: int| 0 <= i < u.len() implies le16(s, p + 2 * i) == u[i] by {
        assert(s.subrange(p + 2 * i, p + 2 * i + 2) =~= u16s_bytes(u).subrange(2 * i, 2 * i + 2));
        lemma_le16_sub(s, p + 2 * i, u[i]);
    }
    assert(u16s_at(s, p, u.len()) =~= u);
}

/// The first zero at or after `q` is `z` where all bytes in between are non-zero.
pub proof fn lemma_first_zero(s: Seq<u8>, q: int, z: int)
    requires
        0 <= q <= z < s.len(),
        s[z] == 0,
        forall|k: int| q <= k < z ==> s[k] != 0,
    ensures
        first_zero_from(s, q) == Some(z),
    decreases z - q,
{
    if q < z {
        lemma_first_zero(s, q + 1, z);
    }
}

/// Decoding the bytes of a well-formed string, wherever they stand, gives the
/// string back and stops right after its bytes.
pub proof fn lemma_string_roundtrip(m: DeviceSQLStringModel, pre: Seq<u8>, post: Seq<u8>)
    requires
        m.spec_wf(),
    ensures
        DeviceSQLStringModel::spec_parse(pre + m.spec_bytes() + post, pre.len() as int) == Some(
            (m, pre.len() + m.spec_bytes().len() as int),
        ),
{
    let s = pre + m.spec_bytes() + post;
    let p = pre.len() as int;
    match m {
        DeviceSQLStringModel::Short(c) => {
            let h = ((2 * c.len() + 3) % 256) as u8;
            assert(s[p] == h);
            assert(h == 2 * c.len() + 3);
            assert(s.subrange(p + 1, p + 1 + c.len()) =~= c);
        },
        DeviceSQLStringModel::Ascii(c) => {
            let len16 = (c.len() + 4) as u16;
            assert(s[p] == 0x40);
            assert(s.subrange(p + 1, p + 3) =~= bytes16(len16));
            lemma_le16_sub(s, p + 1, len16);
            assert(s[p + 3] == 0);
            assert(s.subrange(p + 4, p + 4 + c.len()) =~= c);
        },
        DeviceSQLStringModel::Ucs2le(u) => {
            let len16 = (2 * u.len() + 4) as u16;
            lemma_u16s_bytes(u);
            assert(s[p] == 0x90);
            assert(s.subrange(p + 1, p + 3) =~= bytes16(len16));
            lemma_le16_sub(s, p + 1, len16);
            assert(s[p + 3] == 0);
            assert(u16s_bytes(u).subrange(2 * 0int, 2 * 0int + 2) == bytes16(u[0]));
            assert(s[p + 4] == u16s_bytes(u)[0]);
            assert(u16s_bytes(u)[0] == bytes16(u[0])[0]);
            let head = seq![0x90u8] + bytes16(len16) + seq![0u8];
            assert(s =~= (pre + head) + u16s_bytes(u) + post);
            lemma_u16s_roundtrip(u, pre + head, post);
        },
        DeviceSQLStringModel::Isrc(b) => {
            let len16 = (b.len() + 6) as u16;
            assert(s[p] == 0x90);
            assert(s.subrange(p + 1, p + 3) =~= bytes16(len16));
            lemma_le16_sub(s, p + 1, len16);
            assert(s[p + 3] == 0);
            assert(s[p + 4] == 3);
            let z = p + 5 + b.len();
            assert(s[z] == 0);
            assert forall|k: int| p + 5 <= k < z implies s[k] != 0 by {
                assert(s[k] == b[k - p - 5]);
            }
            lemma_first_zero(s, p + 5, z);
            assert(s.subrange(p + 5, z) =~= b);
        },
    }
}


#[verifier::external_type_specification]
#[verifier::external_body]
pub struct ExNullString(binrw::NullString);

/// The bytes held by a `binrw::NullString` (without its terminating zero).
pub uninterp spec fn null_string_bytes(s: binrw::NullString) -> Seq<u8>;

/// The derived `Clone` of `binrw::NullString` copies its bytes.
pub assume_specification[ <binrw::NullString as Clone>::clone ](s: &binrw::NullString) -> (r:
    binrw::NullString)
    ensures
        null_string_bytes(r) == null_string_bytes(*s),
;

/// Builds a `binrw::NullString` from its public byte field; it holds exactly `bytes`.
#[verifier::external_body]
fn null_string_new(bytes: Vec<u8>) -> (r: binrw::NullString)
    ensures
        null_string_bytes(r) == bytes@,
{
    binrw::NullString(bytes)
}

/// `binrw::NullString::from(String)`, which keeps the UTF-8 bytes of the string.
#[verifier::external_body]
fn null_string_from_string(s: String) -> (r: binrw::NullString)
    ensures
        null_string_bytes(r) == encode_utf8(s@),
{
    binrw::NullString::from(s)
}

/// A copy of the public byte field of a `binrw::NullString`.
#[verifier::external_body]
fn null_string_to_bytes(s: &binrw::NullString) -> (r: Vec<u8>)
    ensures
        r@ == null_string_bytes(*s),
{
    s.0.clone()
}

/// `String::try_from(binrw::NullString)`, which is `String::from_utf8` of its
/// bytes: it succeeds exactly on valid UTF-8 and then holds the decoded characters.
#[verifier::external_body]
fn null_string_into_string(s: binrw::NullString) -> (r: Option<String>)
    ensures
        r is Some <==> valid_utf8(null_string_bytes(s)),
        r matches Some(t) ==> t@ == decode_utf8(null_string_bytes(s)),
{
    String::try_from(s).ok()
}

/// `String::from_utf8`: succeeds exactly on valid UTF-8 and then holds the
/// decoded characters.
#[verifier::external_body]
fn string_from_utf8(v: Vec<u8>) -> (r: Option<String>)
    ensures
        r is Some <==> valid_utf8(v@),
        r matches Some(t) ==> t@ == decode_utf8(v@),
{
    String::from_utf8(v).ok()
}

/// `String::from_utf16`: succeeds exactly where `v` is the UTF-16 encoding of
/// some characters, and then holds characters whose encoding is `v`.
#[verifier::external_body]
fn string_from_utf16(v: &[u16]) -> (r: Option<String>)
    ensures
        r is Some <==> exists|cs: Seq<char>| utf16_units(cs) == v@,
        r matches Some(t) ==> utf16_units(t@) == v@,
{
    String::from_utf16(v).ok()
}

/// `str::encode_utf16`, collected: the UTF-16 code units of the string.
#[verifier::external_body]
fn str_encode_utf16(s: &str) -> (r: Vec<u16>)
    ensures
        r@ == utf16_units(s@),
{
    s.encode_utf16().collect()
}

/// The UTF-8 bytes of a string.
fn string_bytes(s: &str) -> (r: Vec<u8>)
    ensures
        r@ == encode_utf8(s@),
{
    let b = s.as_bytes();
    let mut r: Vec<u8> = Vec::new();
    let mut i: usize = 0;
    while i < b.len()
        invariant
            i <= b@.len(),
            r@ == b@.take(i as int),
        decreases b@.len() - i,
    {
        r.push(b[i]);
        i = i + 1;
        assert(r@ =~= b@.take(i as int));
    }
    assert(b@.take(b@.len() as int) =~= b@);
    r
}

/// The content of a long DeviceSQL string.
#[derive(Debug, PartialEq, Eq, Clone)]
enum LongBody {
    /// An ISRC code, stored after a `0x03` byte and followed by a zero byte.
    Isrc(binrw::NullString),
    /// ASCII bytes.
    Ascii(Vec<u8>),
    /// UTF-16LE code units.
    Ucs2le(Vec<u16>),
}

impl LongBody {
    /// The abstract content.
    pub closed spec fn model(&self) -> DeviceSQLStringModel {
        match self {
            LongBody::Isrc(n) => DeviceSQLStringModel::Isrc(null_string_bytes(*n)),
            LongBody::Ascii(v) => DeviceSQLStringModel::Ascii(v@),
            LongBody::Ucs2le(v) => DeviceSQLStringModel::Ucs2le(v@),
        }
    }

    /// Number of content bytes, as stored in the length field; fails where it
    /// does not fit into 16 bits.
    pub fn byte_count(&self) -> (r: Result<u16, StringError>)
        ensures
            self.model().byte_count() <= u16::MAX ==> r == Ok::<u16, StringError>(
                self.model().byte_count() as u16,
            ),
            self.model().byte_count() > u16::MAX ==> r == Err::<u16, StringError>(
                StringError::TooLong,
            ),
    {
        let n: usize = match self {
            LongBody::Isrc(s) => {
                let b = null_string_to_bytes(s);
                if b.len() > 65533 {
                    return Err(StringError::TooLong);
                }
                b.len() + 2
            },
            LongBody::Ascii(buf) => buf.len(),
            LongBody::Ucs2le(buf) => {
                if buf.len() > 32767 {
                    return Err(StringError::TooLong);
                }
                buf.len() * 2
            },
        };
        if n > 65535 {
            Err(StringError::TooLong)
        } else {
            Ok(n as u16)
        }
    }

    /// The flags byte of the encoding.
    pub fn flags(&self) -> (r: u8)
        ensures
            r == (match self.model() {
                DeviceSQLStringModel::Ascii(_) => 0x40u8,
                _ => 0x90u8,
            }),
    {
        match self {
            LongBody::Ucs2le(_) | LongBody::Isrc(_) => 0x90,
            LongBody::Ascii(_) => 0x40,
        }
    }
}

/// The two encodings of a DeviceSQL string.
#[derive(Debug, PartialEq, Eq, Clone)]
enum DeviceSQLStringImpl {
    /// Short ASCII string.
    ShortASCII { content: Vec<u8> },
    /// Long string.
    Long { content: LongBody },
}

/// A string as stored in the DeviceSQL database. Once constructed it cannot be changed.
#[derive(Debug, PartialEq, Eq, Clone)]
pub struct DeviceSQLString(DeviceSQLStringImpl);

impl View for DeviceSQLString {
    type V = DeviceSQLStringModel;

    closed spec fn view(&self) -> DeviceSQLStringModel {
        match self.0 {
            DeviceSQLStringImpl::ShortASCII { content } => DeviceSQLStringModel::Short(content@),
            DeviceSQLStringImpl::Long { content } => content.model(),
        }
    }
}

impl DeviceSQLString {
    /// Encodes a string: short ASCII up to 126 bytes, long ASCII or UTF-16LE up
    /// to 32767 UTF-8 bytes; longer strings fail with `TooLong`.
    pub fn new(string: String) -> (r: Result<DeviceSQLString, StringError>)
        ensures
            match DeviceSQLStringModel::spec_new(string@) {
                Ok(m) => r matches Ok(v) && v@ == m,
                Err(e) => r == Err::<DeviceSQLString, StringError>(e),
            },
    {
        let s = string.as_str();
        let len = s.as_bytes().len();
        let only_ascii = s.is_ascii();
        if only_ascii && len <= MAX_SHORTSTR_SIZE {
            Ok(DeviceSQLString(DeviceSQLStringImpl::ShortASCII { content: string_bytes(s) }))
        } else if len <= MAX_STRING_SIZE {
            if only_ascii {
                Ok(
                    DeviceSQLString(
                        DeviceSQLStringImpl::Long { content: LongBody::Ascii(string_bytes(s)) },
                    ),
                )
            } else {
                Ok(
                    DeviceSQLString(
                        DeviceSQLStringImpl::Long { content: LongBody::Ucs2le(str_encode_utf16(s)) },
                    ),
                )
            }
        } else {
            Err(StringError::TooLong)
        }
    }

    /// Encodes an ISRC code in the long null-terminated form; the empty string
    /// gives the empty string, anything but twelve ASCII characters fails.
    pub fn new_isrc(string: String) -> (r: Result<DeviceSQLString, StringError>)
        ensures
            string@.len() == 0 ==> (r matches Ok(v) && v@ == DeviceSQLStringModel::Short(
                Seq::empty(),
            )),
            string@.len() != 0 && (encode_utf8(string@).len() != 12 || !is_ascii_chars(string@))
                ==> r == Err::<DeviceSQLString, StringError>(StringError::InvalidISRC),
            string@.len() != 0 && encode_utf8(string@).len() == 12 && is_ascii_chars(string@)
                ==> (r matches Ok(v) && v@ == DeviceSQLStringModel::Isrc(encode_utf8(string@))),
    {
        if string.as_str().is_empty() {
            return Ok(Self::empty());
        }
        if string.as_str().as_bytes().len() != 12 || !string.is_ascii() {
            return Err(StringError::InvalidISRC);
        }
        Ok(
            DeviceSQLString(
                DeviceSQLStringImpl::Long {
                    content: LongBody::Isrc(null_string_from_string(string)),
                },
            ),
        )
    }

    /// Decodes the content back into a Rust string; fails with `Encoding` where
    /// the bytes are not UTF-8 or the code units not UTF-16.
    pub fn into_string(self) -> (r: Result<String, StringError>)
        ensures
            match self@.spec_into_string() {
                Ok(cs) => r matches Ok(t) && t@ == cs,
                Err(e) => r == Err::<String, StringError>(e),
            },
    {
        match self.0 {
            DeviceSQLStringImpl::ShortASCII { content } => match string_from_utf8(content) {
                Some(t) => Ok(t),
                None => Err(StringError::Encoding),
            },
            DeviceSQLStringImpl::Long { content } => match content {
                LongBody::Ascii(v) => match string_from_utf8(v) {
                    Some(t) => Ok(t),
                    None => Err(StringError::Encoding),
                },
                LongBody::Isrc(n) => match null_string_into_string(n) {
                    Some(t) => Ok(t),
                    None => Err(StringError::Encoding),
                },
                LongBody::Ucs2le(v) => match string_from_utf16(v.as_slice()) {
                    Some(t) => {
                        proof {
                            let cs = choose|cs: Seq<char>| utf16_units(cs) == v@;
                            lemma_utf16_units_injective(t@, cs);
                        }
                        Ok(t)
                    },
                    None => Err(StringError::Encoding),
                },
            },
        }
    }

    /// Whether the string can be written: a short string's header holds its
    /// length, a long string's length field holds its size.
    pub fn is_writable(&self) -> (r: bool)
        ensures
            r == self@.spec_writable(),
    {
        match &self.0 {
            DeviceSQLStringImpl::ShortASCII { content } => content.len() <= MAX_SHORTSTR_SIZE,
            DeviceSQLStringImpl::Long { content } => match content.byte_count() {
                Ok(n) => n <= 65531,
                Err(_) => false,
            },
        }
    }

    /// The empty string.
    pub fn empty() -> (r: DeviceSQLString)
        ensures
            r@ == DeviceSQLStringModel::Short(Seq::empty()),
    {
        DeviceSQLString(DeviceSQLStringImpl::ShortASCII { content: Vec::new() })
    }

    /// Number of bytes the encoded string takes in a page heap.
    pub fn heap_bytes_required(&self) -> (r: u16)
        requires
            self@.spec_bytes().len() <= u16::MAX,
        ensures
            r == self@.spec_bytes().len(),
    {
        match &self.0 {
            DeviceSQLStringImpl::ShortASCII { content } => (content.len() + 1) as u16,
            DeviceSQLStringImpl::Long { content } => {
                proof {
                    lemma_long_len(content.model());
                }
                match content.byte_count() {
                    Ok(n) => n + 4,
                    Err(_) => 0,
                }
            },
        }
    }
}

/// A long string takes four bytes more than its content.
proof fn lemma_long_len(m: DeviceSQLStringModel)
    ensures
        !(m is Short) ==> m.spec_bytes().len() == m.byte_count() + 4,
{
    match m {
        DeviceSQLStringModel::Ucs2le(u) => {
            lemma_u16s_bytes(u);
        },
        _ => {},
    }
}

impl std::str::FromStr for DeviceSQLString {
    type Err = StringError;

    fn from_str(s: &str) -> (r: Result<DeviceSQLString, StringError>)
        ensures
            match DeviceSQLStringModel::spec_new(s@) {
                Ok(m) => r matches Ok(v) && v@ == m,
                Err(e) => r == Err::<DeviceSQLString, StringError>(e),
            },
    {
        DeviceSQLString::new(s.to_owned())
    }
}

/// Each character takes at most four bytes in UTF-8.
pub proof fn lemma_encode_utf8_len(cs: Seq<char>)
    ensures
        encode_utf8(cs).len() <= 4 * cs.len(),
    decreases cs.len(),
{
    if cs.len() > 0 {
        lemma_encode_utf8_len(cs.drop_first());
    }
}

/// Each character takes at most two UTF-16 code units.
pub proof fn lemma_utf16_units_len(cs: Seq<char>)
    ensures
        utf16_units(cs).len() <= 2 * cs.len(),
    decreases cs.len(),
{
    if cs.len() > 0 {
        lemma_utf16_units_len(cs.drop_first());
    }
}

/// A string of at most 20 characters is always encoded, can be written, and
/// takes at most 85 bytes.
pub proof fn lemma_short_new(cs: Seq<char>)
    requires
        cs.len() <= 20,
    ensures
        DeviceSQLStringModel::spec_new(cs) matches Ok(m) && m.spec_writable() && m.spec_bytes().len()
            <= 85,
{
    lemma_encode_utf8_len(cs);
    lemma_utf16_units_len(cs);
    let bytes = encode_utf8(cs);
    if !is_ascii_chars(cs) {
        lemma_u16s_bytes(utf16_units(cs));
    }
}

/// A string that can be written takes at most 65535 bytes.
pub proof fn lemma_writable_len(m: DeviceSQLStringModel)
    requires
        m.spec_writable(),
    ensures
        m.spec_bytes().len() <= u16::MAX,
{
    lemma_long_len(m);
}

/// A string made by `DeviceSQLString::new` decodes back to the characters it was made from.
pub proof fn lemma_new_into_string(cs: Seq<char>)
    requires
        encode_utf8(cs).len() <= MAX_STRING_SIZE,
    ensures
        DeviceSQLStringModel::spec_new(cs) matches Ok(m) && m.spec_into_string() == Ok::<
            Seq<char>,
            StringError,
        >(cs),
{
    encode_utf8_valid_utf8(cs);
    encode_utf8_decode_utf8(cs);
    let m = DeviceSQLStringModel::spec_new(cs)->Ok_0;
    if let DeviceSQLStringModel::Ucs2le(u) = m {
        assert(utf16_units(cs) == u);
        let c = choose|c: Seq<char>| utf16_units(c) == u;
        lemma_utf16_units_injective(c, cs);
    }
}

/// Which encoding a string made by `DeviceSQLString::new` gets: text with a
/// character outside ASCII is stored as the UTF-16 code units of the text,
/// never as ASCII bytes; all-ASCII text is stored as its bytes, one per
/// character below 128, as a short string up to 126 bytes and as a long
/// ASCII string beyond; text of more than 32767 UTF-8 bytes is refused.
pub proof fn lemma_new_encoding(cs: Seq<char>)
    ensures
        !is_ascii_chars(cs) && encode_utf8(cs).len() <= 32767 ==> DeviceSQLStringModel::spec_new(cs)
            == Ok::<DeviceSQLStringModel, StringError>(DeviceSQLStringModel::Ucs2le(utf16_units(cs))),
        is_ascii_chars(cs) && cs.len() <= 126 ==> DeviceSQLStringModel::spec_new(cs) == Ok::<
            DeviceSQLStringModel,
            StringError,
        >(DeviceSQLStringModel::Short(encode_utf8(cs))),
        is_ascii_chars(cs) && 126 < cs.len() <= 32767 ==> DeviceSQLStringModel::spec_new(cs) == Ok::<
            DeviceSQLStringModel,
            StringError,
        >(DeviceSQLStringModel::Ascii(encode_utf8(cs))),
        encode_utf8(cs).len() > 32767 ==> DeviceSQLStringModel::spec_new(cs) == Err::<
            DeviceSQLStringModel,
            StringError,
        >(StringError::TooLong),
        DeviceSQLStringModel::spec_new(cs) matches Ok(DeviceSQLStringModel::Short(b)) ==> is_ascii_chars(cs)
            && b.len() == cs.len() && b.len() <= 126 && forall|i: int| 0 <= i < b.len() ==> b[i] < 128 && b[i]
            == cs[i] as u8,
        DeviceSQLStringModel::spec_new(cs) matches Ok(DeviceSQLStringModel::Ascii(b)) ==> is_ascii_chars(cs)
            && b.len() == cs.len() && 126 < b.len() && forall|i: int| 0 <= i < b.len() ==> b[i] < 128 && b[i]
            == cs[i] as u8,
{
    if is_ascii_chars(cs) {
        vstd::utf8::is_ascii_chars_encode_utf8(cs);
        vstd::utf8::is_ascii_chars_nat_bound(cs);
        let b = encode_utf8(cs);
        assert forall|i: int| 0 <= i < b.len() implies b[i] < 128 && b[i] == cs[i] as u8 by {
            assert(cs[i] as u8 == b[i]);
            assert((cs[i] as nat) < 128);
        }
    }
}

/// How a DeviceSQL string that can be written is laid out. A short string is
/// one odd header byte, whose upper seven bits hold its length plus one,
/// followed by its bytes. A long string starts with 0x40 for ASCII or 0x90 for
/// UTF-16LE and ISRC codes, then its whole size in bytes (the four header
/// bytes and the content) as two bytes low byte first, then a zero byte, then
/// its content: the ASCII bytes, each UTF-16 code unit low byte first, or the
/// byte 3, the ISRC bytes and a closing zero.
pub proof fn lemma_string_layout(m: DeviceSQLStringModel)
    requires
        m.spec_writable(),
    ensures
        m matches DeviceSQLStringModel::Short(c) ==> {
            let b = m.spec_bytes();
            &&& b.len() == c.len() + 1
            &&& b[0] % 2 == 1
            &&& b[0] / 2 == c.len() + 1
            &&& b.subrange(1, b.len() as int) == c
        },
        !(m is Short) ==> {
            let b = m.spec_bytes();
            &&& b.len() >= 4
            &&& b[1] + 256 * b[2] == b.len()
            &&& b[3] == 0
            &&& (b[0] == 0x40 <==> m is Ascii)
            &&& (b[0] == 0x90 <==> !(m is Ascii))
        },
        m matches DeviceSQLStringModel::Ascii(c) ==> m.spec_bytes().subrange(4, m.spec_bytes().len() as int)
            == c,
        m matches DeviceSQLStringModel::Ucs2le(u) ==> forall|i: int|
            0 <= i < u.len() ==> m.spec_bytes()[4 + 2 * i] + 256 * m.spec_bytes()[5 + 2 * i] == #[trigger] u[i],
        m matches DeviceSQLStringModel::Isrc(c) ==> {
            let b = m.spec_bytes();
            &&& b[4] == 3
            &&& b.subrange(5, 5 + c.len() as int) == c
            &&& b[b.len() - 1] == 0
        },
{
    let b = m.spec_bytes();
    match m {
        DeviceSQLStringModel::Short(c) => {
            assert(b.subrange(1, b.len() as int) =~= c);
        },
        DeviceSQLStringModel::Ascii(c) => {
            let x = (c.len() + 4) as u16;
            assert(b[1] == (x % 256) as u8 && b[2] == (x / 256) as u8);
            assert(b.subrange(4, b.len() as int) =~= c);
        },
        DeviceSQLStringModel::Ucs2le(u) => {
            let x = (2 * u.len() + 4) as u16;
            lemma_u16s_bytes(u);
            assert(b[1] == (x % 256) as u8 && b[2] == (x / 256) as u8);
            assert forall|i: int| 0 <= i < u.len() implies b[4 + 2 * i] + 256 * b[5 + 2 * i] == #[trigger] u[i] by {
                let w = u16s_bytes(u);
                assert(w.subrange(2 * i, 2 * i + 2) == bytes16(u[i]));
                assert(b[4 + 2 * i] == w[2 * i]);
                assert(b[5 + 2 * i] == w[2 * i + 1]);
                assert(w[2 * i] == w.subrange(2 * i, 2 * i + 2)[0]);
                assert(w[2 * i + 1] == w.subrange(2 * i, 2 * i + 2)[1]);
            }
        },
        DeviceSQLStringModel::Isrc(c) => {
            let x = (c.len() + 6) as u16;
            assert(b[1] == (x % 256) as u8 && b[2] == (x / 256) as u8);
            assert(b.subrange(5, 5 + c.len() as int) =~= c);
        },
    }
}

/// The first zero at or after `q` lies at or after `q` within `s`.
proof fn lemma_first_zero_bounds(s: Seq<u8>, q: int)
    ensures
        first_zero_from(s, q) matches Some(z) ==> 0 <= q <= z < s.len(),
    decreases s.len() - q,
{
    if 0 <= q < s.len() && s[q] != 0 {
        lemma_first_zero_bounds(s, q + 1);
    }
}

/// Zero-free bytes before `k` do not change where the first zero after `q` lies.
proof fn lemma_first_zero_skip(s: Seq<u8>, q: int, k: int)
    requires
        0 <= q <= k <= s.len(),
        forall|j: int| q <= j < k ==> s[j] != 0,
    ensures
        first_zero_from(s, q) == first_zero_from(s, k),
    decreases k - q,
{
    if q < k {
        lemma_first_zero_skip(s, q + 1, k);
    }
}

impl Codec for DeviceSQLString {
    open spec fn spec_bytes(v: DeviceSQLStringModel) -> Seq<u8> {
        v.spec_bytes()
    }

    open spec fn spec_parse(s: Seq<u8>, p: int) -> Option<(DeviceSQLStringModel, int)> {
        DeviceSQLStringModel::spec_parse(s, p)
    }

    open spec fn spec_wf(v: DeviceSQLStringModel) -> bool {
        v.spec_wf()
    }

    open spec fn spec_writable(v: DeviceSQLStringModel) -> bool {
        v.spec_writable()
    }

    proof fn lemma_roundtrip(v: DeviceSQLStringModel, pre: Seq<u8>, post: Seq<u8>) {
        lemma_string_roundtrip(v, pre, post);
    }

    proof fn lemma_parse_bounds(s: Seq<u8>, p: int) {
        if let Some((v, e)) = DeviceSQLStringModel::spec_parse(s, p) {
            if s[p] % 2 != 1 && s[p] == 0x90 && p + 4 < s.len() && s[p + 4] == 3 && first_zero_from(
                s,
                p + 5,
            ) is Some {
                lemma_first_zero_bounds(s, p + 5);
            }
        }
    }

    proof fn lemma_parse_writable(s: Seq<u8>, p: int) {
        if let Some((v, e)) = DeviceSQLStringModel::spec_parse(s, p) {
            let q = p + 4;
            if s[p] % 2 != 1 && s[p] == 0x90 && q < s.len() && s[q] == 3 && first_zero_from(
                s,
                q + 1,
            ) is Some && first_zero_from(s, q + 1)->0 - (q + 1) + 6 <= u16::MAX {
                lemma_first_zero_bounds(s, q + 1);
            }
            if let DeviceSQLStringModel::Ucs2le(u) = v {
                lemma_u16s_bytes(u);
            }
        }
    }

    fn parse(data: &[u8], pos: usize) -> (r: Option<(DeviceSQLString, usize)>) {
        let ghost s = data@;
        let len = data.len();
        if pos >= len {
            return None;
        }
        let h = data[pos];
        if h % 2 == 1 {
            if h / 2 < 1 {
                return None;
            }
            let n = (h / 2 - 1) as usize;
            if len - (pos + 1) < n {
                return None;
            }
            let mut content: Vec<u8> = Vec::new();
            let mut i: usize = 0;
            while i < n
                invariant
                    pos + 1 + n <= len,
                    len == data@.len(),
                    i <= n,
                    content@ == data@.subrange(pos + 1, pos + 1 + i),
                decreases n - i,
            {
                content.push(data[pos + 1 + i]);
                i = i + 1;
                assert(content@ =~= data@.subrange(pos + 1, pos + 1 + i));
            }
            return Some(
                (DeviceSQLString(DeviceSQLStringImpl::ShortASCII { content }), pos + 1 + n),
            );
        }
        if len - pos < 4 || data[pos + 3] != 0 {
            return None;
        }
        let length = read_u16(data, pos + 1);
        if length < 4 {
            return None;
        }
        let l = (length - 4) as usize;
        let q = pos + 4;
        if h == 0x90 && q < len && data[q] == 3 {
            let mut k = q + 1;
            while k < len && data[k] != 0
                invariant
                    q + 1 <= k <= len,
                    len == data@.len(),
                    forall|j: int| q + 1 <= j < k ==> data@[j] != 0,
                decreases len - k,
            {
                k = k + 1;
            }
            proof {
                lemma_first_zero_skip(s, q + 1, k as int);
            }
            if k < len && k - (q + 1) <= 65529 {
                let mut content: Vec<u8> = Vec::new();
                let mut i: usize = q + 1;
                while i < k
                    invariant
                        q + 1 <= i <= k,
                        k < len,
                        len == data@.len(),
                        content@ == data@.subrange(q + 1, i as int),
                    decreases k - i,
                {
                    content.push(data[i]);
                    i = i + 1;
                    assert(content@ =~= data@.subrange(q + 1, i as int));
                }
                return Some(
                    (
                        DeviceSQLString(
                            DeviceSQLStringImpl::Long {
                                content: LongBody::Isrc(null_string_new(content)),
                            },
                        ),
                        k + 1,
                    ),
                );
            }
        }
        if len - q < l {
            return None;
        }
        if h == 0x40 {
            let mut content: Vec<u8> = Vec::new();
            let mut i: usize = 0;
            while i < l
                invariant
                    q + l <= len,
                    len == data@.len(),
                    i <= l,
                    content@ == data@.subrange(q as int, q + i),
                decreases l - i,
            {
                content.push(data[q + i]);
                i = i + 1;
                assert(content@ =~= data@.subrange(q as int, q + i));
            }
            return Some(
                (
                    DeviceSQLString(DeviceSQLStringImpl::Long { content: LongBody::Ascii(content) }),
                    q + l,
                ),
            );
        }
        if h == 0x90 && l % 2 == 0 {
            let mut units: Vec<u16> = Vec::new();
            let mut i: usize = 0;
            while i < l / 2
                invariant
                    q + l <= len,
                    len == data@.len(),
                    l % 2 == 0,
                    i <= l / 2,
                    units@ == u16s_at(data@, q as int, i as nat),
                decreases l / 2 - i,
            {
                units.push(read_u16(data, q + 2 * i));
                i = i + 1;
                assert(units@ =~= u16s_at(data@, q as int, i as nat));
            }
            return Some(
                (
                    DeviceSQLString(DeviceSQLStringImpl::Long { content: LongBody::Ucs2le(units) }),
                    q + l,
                ),
            );
        }
        None
    }

    fn byte_len(&self) -> (r: usize) {
        match &self.0 {
            DeviceSQLStringImpl::ShortASCII { content } => content.len() + 1,
            DeviceSQLStringImpl::Long { content } => {
                proof {
                    lemma_long_len(content.model());
                }
                match content.byte_count() {
                    Ok(n) => n as usize + 4,
                    Err(_) => 0,
                }
            },
        }
    }

    fn serialize(&self, out: &mut Vec<u8>) {
        match &self.0 {
            DeviceSQLStringImpl::ShortASCII { content } => {
                out.push((((content.len() % 128) * 2 + 3) % 256) as u8);
                append_bytes(out, content.as_slice());
            },
            DeviceSQLStringImpl::Long { content } => {
                proof {
                    lemma_long_len(content.model());
                }
                let count = match content.byte_count() {
                    Ok(n) => n,
                    Err(_) => 0,
                };
                out.push(content.flags());
                push_u16(out, count + 4);
                out.push(0u8);
                match content {
                    LongBody::Ascii(v) => {
                        append_bytes(out, v.as_slice());
                    },
                    LongBody::Ucs2le(v) => {
                        let ghost start = out@;
                        let mut i: usize = 0;
                        while i < v.len()
                            invariant
                                i <= v@.len(),
                                out@ == start + u16s_bytes(v@.take(i as int)),
                            decreases v@.len() - i,
                        {
                            push_u16(out, v[i]);
                            proof {
                                assert(v@.take(i + 1).drop_last() =~= v@.take(i as int));
                            }
                            i = i + 1;
                        }
                        assert(v@.take(v@.len() as int) =~= v@);
                    },
                    LongBody::Isrc(n) => {
                        out.push(3u8);
                        let b = null_string_to_bytes(n);
                        append_bytes(out, b.as_slice());
                        out.push(0u8);
                    },
                }
            },
        }
        assert(final(out)@ =~= old(out)@ + self@.spec_bytes());
    }
}

/// Appends the bytes of `b`.
fn append_bytes(out: &mut Vec<u8>, b: &[u8])
    ensures
        final(out)@ == old(out)@ + b@,
{
    let mut i: usize = 0;
    while i < b.len()
        invariant
            i <= b@.len(),
            out@ == old(out)@ + b@.take(i as int),
        decreases b@.len() - i,
    {
        out.push(b[i]);
        i = i + 1;
        assert(out@ =~= old(out)@ + b@.take(i as int));
    }
    assert(b@.take(b@.len() as int) =~= b@);
}

impl Default for DeviceSQLString {
    fn default() -> (r: DeviceSQLString)
        ensures
            r@ == DeviceSQLStringModel::Short(Seq::empty()),
    {
        Self::empty()
    }
}

} // verus!
