//! The version record at the head of the instance metadata.
//!
//! Layout: the byte length of the pre-release tag (one byte, 0 for none),
//! major, minor and patch (u16 each, little endian), then the tag's UTF-8
//! bytes.
use vstd::prelude::*;
use vstd::bytes::*;
use vstd::utf8::*;
use crate::reader::{read_at, read_len};
use crate::text::{lossy_decode, utf8_to_string_lossy};

verus! {

/// Why a version record could not be read.
#[derive(Debug, Clone, Copy, PartialEq, Eq, Structural)]
pub enum VersionError {
    /// The input ends inside the record.
    Truncated,
}

/// The version of the instance data format.
#[derive(Debug)]
pub struct InstanceVersion {
    pub major: u16,
    pub minor: u16,
    pub patch: u16,
    pub pre: Option<String>,
}

/// The text of an optional tag.
pub open spec fn pre_view(pre: Option<String>) -> Option<Seq<char>> {
    match pre {
        Some(s) => Some(s@),
        None => None,
    }
}

impl View for InstanceVersion {
    type V = (u16, u16, u16, Option<Seq<char>>);

    open spec fn view(&self) -> (u16, u16, u16, Option<Seq<char>>) {
        (self.major, self.minor, self.patch, pre_view(self.pre))
    }
}

/// The version this library writes: 0.0.0-alpha.
pub open spec fn current_version() -> (u16, u16, u16, Option<Seq<char>>) {
    (0, 0, 0, Some("alpha"@))
}

/// The record of a version: tag length byte (the tag's byte length
/// truncated to a byte), major, minor, patch, tag bytes.
pub open spec fn version_bytes(v: (u16, u16, u16, Option<Seq<char>>)) -> Seq<u8> {
    let tag = match v.3 {
        Some(p) => encode_utf8(p),
        None => Seq::empty(),
    };
    let tag_len: u8 = match v.3 {
        Some(p) => encode_utf8(p).len() as u8,
        None => 0,
    };
    seq![tag_len] + spec_u16_to_le_bytes(v.0) + spec_u16_to_le_bytes(v.1) + spec_u16_to_le_bytes(v.2)
        + tag
}

/// Reading a version record at `pos`: at the end of the input the current
/// version, nothing consumed; else the record and the position after it.
/// A tag length of 0 reads as no tag; the tag bytes are decoded lossily.
pub open spec fn version_at(input: Seq<u8>, pos: int) -> Result<
    ((u16, u16, u16, Option<Seq<char>>), int),
    VersionError,
> {
    if read_len(input, pos, 1) == 0 {
        Ok((current_version(), pos))
    } else {
        let len = input[pos] as int;
        let start = pos + 1;
        if input.len() - start < len + 6 {
            Err(VersionError::Truncated)
        } else {
            let major = spec_u16_from_le_bytes(input.subrange(start, start + 2));
            let minor = spec_u16_from_le_bytes(input.subrange(start + 2, start + 4));
            let patch = spec_u16_from_le_bytes(input.subrange(start + 4, start + 6));
            let pre = if len == 0 {
                None
            } else {
                Some(lossy_decode(input.subrange(start + 6, start + 6 + len)))
            };
            Ok(((major, minor, patch, pre), start + 6 + len))
        }
    }
}

impl InstanceVersion {
    /// Reads a version record at `pos` of `input`; gives it and the
    /// position after it.
    pub fn from_reader(input: &[u8], pos: usize) -> (r: Result<(Self, usize), VersionError>)
        requires
            pos <= input@.len(),
        ensures
            match r {
                Ok((v, next)) => version_at(input@, pos as int) == Ok::<
                    ((u16, u16, u16, Option<Seq<char>>), int),
                    VersionError,
                >((v@, next as int)),
                Err(e) => version_at(input@, pos as int) == Err::<
                    ((u16, u16, u16, Option<Seq<char>>), int),
                    VersionError,
                >(e),
            },
    {
        let (len_buf, start) = read_at(input, pos, 1);
        if start == pos {
            return Ok((Self::current(), pos));
        }
        let len = len_buf[0];
        let need = len as usize + 6;
        if input.len() - start < need {
            return Err(VersionError::Truncated);
        }
        let major = u16_from_le_bytes(&input[start..start + 2]);
        let minor = u16_from_le_bytes(&input[start + 2..start + 4]);
        let patch = u16_from_le_bytes(&input[start + 4..start + 6]);
        let pre = if len == 0 {
            None
        } else {
            Some(utf8_to_string_lossy(&input[start + 6..start + need]))
        };
        Ok((InstanceVersion { major, minor, patch, pre }, start + need))
    }

    /// The version this library writes: 0.0.0-alpha.
    pub fn current() -> (v: Self)
        ensures
            v@ == current_version(),
    {
        let pre: String = "alpha".to_owned();
        InstanceVersion { major: 0, minor: 0, patch: 0, pre: Some(pre) }
    }

    /// Appends the record of this version to `writer`.
    pub fn save_to_writer(&self, writer: &mut Vec<u8>)
        ensures
            final(writer)@ == old(writer)@ + version_bytes(self@),
    {
        match &self.pre {
            Some(pre) => writer.push(pre.as_str().as_bytes().len() as u8),
            None => writer.push(0u8),
        }
        let mut major = u16_to_le_bytes(self.major);
        writer.append(&mut major);
        let mut minor = u16_to_le_bytes(self.minor);
        writer.append(&mut minor);
        let mut patch = u16_to_le_bytes(self.patch);
        writer.append(&mut patch);
        if let Some(pre) = &self.pre {
            let bytes = pre.as_str().as_bytes();
            let mut i: usize = 0;
            let ghost mid = writer@;
            while i < bytes.len()
                invariant
                    i <= bytes@.len(),
                    writer@ == mid + bytes@.take(i as int),
                decreases bytes@.len() - i,
            {
                writer.push(bytes[i]);
                i = i + 1;
                assert(writer@ =~= mid + bytes@.take(i as int));
            }
            assert(bytes@.take(bytes@.len() as int) =~= bytes@);
        }
        proof {
            assert(writer@ =~= old(writer)@ + version_bytes(self@));
        }
    }

    /// Whether two versions are the same, field by field.
    fn fields_equal(&self, other: &Self) -> (r: bool)
        ensures
            r == (self@ == other@),
    {
        if self.major != other.major || self.minor != other.minor || self.patch != other.patch {
            return false;
        }
        match (&self.pre, &other.pre) {
            (Some(a), Some(b)) => *a == *b,
            (None, None) => true,
            _ => false,
        }
    }
}

/// The layout of a complete version record at `pos`: its first byte `n`
/// is the tag's byte length, the next six bytes are major, minor and patch
/// (u16, little endian), and the record ends after the `n` tag bytes; a
/// tag length of 0 is no tag. At the end of the input the version is the
/// current one and nothing is consumed.
pub proof fn lemma_version_layout(input: Seq<u8>, pos: int)
    requires
        0 <= pos <= input.len(),
    ensures
        pos == input.len() ==> version_at(input, pos) == Ok::<
            ((u16, u16, u16, Option<Seq<char>>), int),
            VersionError,
        >((current_version(), pos)),
        pos < input.len() && pos + 7 + input[pos] <= input.len() ==> version_at(input, pos) == Ok::<
            ((u16, u16, u16, Option<Seq<char>>), int),
            VersionError,
        >(
            (
                (
                    spec_u16_from_le_bytes(input.subrange(pos + 1, pos + 3)),
                    spec_u16_from_le_bytes(input.subrange(pos + 3, pos + 5)),
                    spec_u16_from_le_bytes(input.subrange(pos + 5, pos + 7)),
                    if input[pos] == 0 {
                        None
                    } else {
                        Some(lossy_decode(input.subrange(pos + 7, pos + 7 + input[pos])))
                    },
                ),
                pos + 7 + input[pos],
            ),
        ),
        pos < input.len() && pos + 7 + input[pos] > input.len() ==> version_at(input, pos) == Err::<
            ((u16, u16, u16, Option<Seq<char>>), int),
            VersionError,
        >(VersionError::Truncated),
{
}

/// The current version's tag is five bytes long, so its record reads back.
pub proof fn lemma_current_tag_len()
    ensures
        encode_utf8("alpha"@).len() == 5,
{
    reveal_strlit("alpha");
    assert(is_ascii_chars("alpha"@));
    is_ascii_chars_encode_utf8("alpha"@);
}

impl PartialEq for InstanceVersion {
    fn eq(&self, other: &Self) -> (r: bool) {
        self.fields_equal(other)
    }
}

impl vstd::std_specs::cmp::PartialEqSpecImpl for InstanceVersion {
    open spec fn obeys_eq_spec() -> bool {
        true
    }

    open spec fn eq_spec(&self, other: &Self) -> bool {
        self@ == other@
    }
}

impl Eq for InstanceVersion {
}

/// A version record read back gives the version written, where the tag is
/// absent or 1 to 255 bytes long.
pub proof fn lemma_version_roundtrip(
    v: (u16, u16, u16, Option<Seq<char>>),
    rest: Seq<u8>,
)
    requires
        v.3 matches Some(p) ==> 1 <= encode_utf8(p).len() <= 255,
    ensures
        version_at(version_bytes(v) + rest, 0) == Ok::<
            ((u16, u16, u16, Option<Seq<char>>), int),
            VersionError,
        >((v, version_bytes(v).len() as int)),
{
    lemma_auto_spec_u16_to_from_le_bytes();
    let b = version_bytes(v);
    let all = b + rest;
    let tag = match v.3 {
        Some(p) => encode_utf8(p),
        None => Seq::<u8>::empty(),
    };
    assert(all.subrange(1, 3) =~= spec_u16_to_le_bytes(v.0));
    assert(all.subrange(3, 5) =~= spec_u16_to_le_bytes(v.1));
    assert(all.subrange(5, 7) =~= spec_u16_to_le_bytes(v.2));
    assert(all.subrange(7, 7 + tag.len() as int) =~= tag);
    if let Some(p) = v.3 {
        encode_utf8_valid_utf8(p);
        encode_utf8_decode_utf8(p);
        assert(all[0] as int == tag.len());
    }
}

} // verus!
