//! Free and total space of the volume behind a path.
//!
//! A lookup has two halves. The first turns a drive letter or a path into
//! the NUL-terminated path of the system's capacity query, or turns it down
//! without any query. The second reads the system's reply.

use crate::win32::encoding::{
    encode_utf16le, le_bytes_to_units, le_units, lemma_units_of_their_bytes, push_char,
    utf16_units,
};
use vstd::prelude::*;
use vstd::string::*;
use vstd::utf8::is_ascii_chars;

verus! {

/// The space of a volume, in bytes.
#[derive(Debug, Clone, Copy, PartialEq, Eq, Structural)]
pub struct FreeSpace {
    /// Free bytes that the caller may use; quotas can make this less than
    /// `total_free_bytes`.
    pub bytes_for_caller: u64,
    /// Size of the volume.
    pub total_bytes: u64,
    /// Free bytes on the volume.
    pub total_free_bytes: u64,
}

/// What the system's capacity query handed back: its status, zero for
/// failure, and the three counts it wrote.
#[derive(Debug, Clone, Copy, PartialEq, Eq, Structural)]
pub struct SpaceReply {
    pub status: i32,
    pub bytes_for_caller: u64,
    pub total_bytes: u64,
    pub total_free_bytes: u64,
}

/// Whether `c` is one of the letters `A` to `Z` or `a` to `z`.
pub open spec fn is_drive_letter(c: char) -> bool {
    ('A' <= c && c <= 'Z') || ('a' <= c && c <= 'z')
}

/// The capital of a drive letter; any other character as it is.
pub open spec fn upper_letter(c: char) -> char {
    if 'a' <= c && c <= 'z' {
        ((c as int) - 32) as char
    } else {
        c
    }
}

/// The root path of a drive: its capital letter, a colon and a slash.
pub open spec fn drive_root(letter: char) -> Seq<char> {
    seq![upper_letter(letter), ':', '/']
}

/// Whether a path can be put to the narrow query: all of it is ASCII and
/// none of it is NUL.
pub open spec fn narrow_path_ok(path: Seq<char>) -> bool {
    is_ascii_chars(path) && forall|i: int| 0 <= i < path.len() ==> path[i] != '\0'
}

/// A path as the narrow query takes it: one byte for each character, then
/// a NUL.
pub open spec fn narrow_path(path: Seq<char>) -> Seq<u8> {
    Seq::new(path.len(), |i: int| path[i] as u8).push(0u8)
}

/// A path as the wide query takes it: its UTF-16 code units, then a NUL.
pub open spec fn wide_path(path: Seq<char>) -> Seq<u16> {
    utf16_units(path).push(0u16)
}

/// The space that a reply reports: none on a zero status, else its three
/// counts.
pub open spec fn space_of(reply: SpaceReply) -> Option<FreeSpace> {
    if reply.status == 0 {
        None
    } else {
        Some(
            FreeSpace {
                bytes_for_caller: reply.bytes_for_caller,
                total_bytes: reply.total_bytes,
                total_free_bytes: reply.total_free_bytes,
            },
        )
    }
}

impl SpaceReply {
    /// Whether neither free count of the reply exceeds its total.
    pub open spec fn within_capacity(&self) -> bool {
        self.bytes_for_caller <= self.total_bytes && self.total_free_bytes <= self.total_bytes
    }
}

impl FreeSpace {
    /// Whether neither free count exceeds the size of the volume.
    pub open spec fn within_capacity(&self) -> bool {
        self.bytes_for_caller <= self.total_bytes && self.total_free_bytes <= self.total_bytes
    }

    /// The query for the space of a drive: the narrow query on the root
    /// path of its capital letter. A character that is no letter gets no
    /// query.
    pub fn try_from_drive(drive_letter: char) -> (query: Option<Vec<u8>>)
        ensures
            query is Some <==> is_drive_letter(drive_letter),
            query matches Some(bytes) ==> bytes@ == narrow_path(drive_root(drive_letter)),
    {
        let lower: bool = 'a' <= drive_letter && drive_letter <= 'z';
        let upper: bool = 'A' <= drive_letter && drive_letter <= 'Z';
        if !lower && !upper {
            return None;
        }
        let letter: char = if lower {
            ((drive_letter as u8) - 32u8) as char
        } else {
            drive_letter
        };
        let mut path = String::new();
        push_char(&mut path, letter);
        path.append(":/");
        proof {
            reveal_strlit(":/");
            assert(path@ =~= drive_root(drive_letter));
            assert(narrow_path_ok(path@));
        }
        Self::try_from_ascii_path(path.as_str())
    }

    /// The narrow query for the space behind `path`: its bytes and a NUL.
    /// A path that holds a character outside ASCII, or a NUL, gets no query.
    pub fn try_from_ascii_path(path: &str) -> (query: Option<Vec<u8>>)
        ensures
            query is Some <==> narrow_path_ok(path@),
            query matches Some(bytes) ==> bytes@ == narrow_path(path@),
    {
        if !path.is_ascii() {
            return None;
        }
        broadcast use is_ascii_spec_bytes;

        let mut bytes = path.as_bytes_vec();
        let mut i: usize = 0;
        while i < bytes.len()
            invariant
                i <= bytes@.len(),
                bytes@.len() == path@.len(),
                forall|k: int| 0 <= k < bytes@.len() ==> bytes@[k] == path@[k] as u8,
                forall|k: int| 0 <= k < i ==> path@[k] != '\0',
            decreases bytes@.len() - i,
        {
            if bytes[i] == 0u8 {
                return None;
            }
            i += 1;
        }
        bytes.push(0u8);
        assert(bytes@ =~= narrow_path(path@));
        Some(bytes)
    }

    /// The wide query for the space behind `path`: its UTF-16 code units
    /// and a NUL. Any path can be asked for in this way.
    pub fn try_from_path(path: &str) -> (query: Vec<u16>)
        ensures
            query@ == wide_path(path@),
    {
        let encoded = encode_utf16le(path);
        proof {
            lemma_units_of_their_bytes(utf16_units(path@));
        }
        Self::wide_query(encoded.as_slice())
    }

    /// The wide query for a path that is given by its little-endian UTF-16
    /// bytes: the code units of the bytes and a NUL.
    pub fn wide_query(encoded: &[u8]) -> (query: Vec<u16>)
        ensures
            query@ == le_units(encoded@).push(0u16),
    {
        let mut units = le_bytes_to_units(encoded);
        units.push(0u16);
        units
    }

    /// The space that the system's reply reports: none where the query
    /// failed.
    pub fn from_reply(reply: &SpaceReply) -> (space: Option<FreeSpace>)
        ensures
            space == space_of(*reply),
    {
        if reply.status == 0 {
            None
        } else {
            Some(
                FreeSpace {
                    bytes_for_caller: reply.bytes_for_caller,
                    total_bytes: reply.total_bytes,
                    total_free_bytes: reply.total_free_bytes,
                },
            )
        }
    }
}

/// A reply whose free counts do not exceed its total reports, where it
/// reports any, a space whose free counts do not exceed its total.
pub proof fn lemma_space_within_capacity(reply: SpaceReply)
    requires
        reply.within_capacity(),
    ensures
        space_of(reply) matches Some(space) ==> space.within_capacity(),
{
}

/// A drive is asked for by its letter in either case: the small letter and
/// its capital have the same root path, and so the same query.
pub proof fn lemma_drive_root_ignores_case(small: char)
    requires
        'a' <= small && small <= 'z',
    ensures
        'A' <= upper_letter(small) && upper_letter(small) <= 'Z',
        is_drive_letter(small) && is_drive_letter(upper_letter(small)),
        drive_root(small) == drive_root(upper_letter(small)),
        narrow_path(drive_root(small)) == narrow_path(drive_root(upper_letter(small))),
{
}

/// The root path of a drive letter can always be put to the narrow query,
/// and it is the capital letter, a colon, a slash and a NUL, one byte each.
pub proof fn lemma_drive_root_is_narrow(letter: char)
    requires
        is_drive_letter(letter),
    ensures
        narrow_path_ok(drive_root(letter)),
        narrow_path(drive_root(letter)) == seq![upper_letter(letter) as u8, 0x3au8, 0x2fu8, 0u8],
{
    assert(narrow_path(drive_root(letter)) =~= seq![
        upper_letter(letter) as u8,
        0x3au8,
        0x2fu8,
        0u8,
    ]);
}

/// A path with a character outside ASCII gets no narrow query, wherever
/// the character stands.
pub proof fn lemma_non_ascii_is_turned_down(path: Seq<char>, i: int)
    requires
        0 <= i < path.len(),
        path[i] as u32 > 0x7f,
    ensures
        !narrow_path_ok(path),
{
}

} // verus!
