//! The metadata of an instance: its format version and the names of its
//! databases.
//!
//! Layout as read: the version record, then the byte length of the name
//! block (u32, little endian), then the block, in which each name is its
//! byte length (u16, little endian) and its bytes. Saving writes the block
//! length as twice the number of names plus their byte lengths, then the
//! name bytes one after another, without their lengths.
use vstd::prelude::*;
use vstd::bytes::*;
use vstd::utf8::*;
use self::version::{InstanceVersion, current_version, version_at, version_bytes};
use crate::reader::{read_at, read_buf, read_len};
use crate::text::{lossy_decode, utf8_to_string_lossy};

pub mod version;

verus! {

/// Why instance metadata could not be read.
#[derive(Debug, Clone, Copy, PartialEq, Eq, Structural)]
pub enum MetadataError {
    /// The input ends inside the version record.
    VersionTruncated,
    /// The name block ends inside a name.
    NameTruncated,
    /// The data was written by another version than the current one.
    VersionMismatch,
}

/// The metadata of an instance.
#[derive(Debug)]
pub struct InstanceMetadata {
    pub version: InstanceVersion,
    pub database_names: Vec<String>,
}

/// The texts of a list of names.
pub open spec fn name_views(names: Seq<String>) -> Seq<Seq<char>> {
    names.map_values(|s: String| s@)
}

/// The names in a name block from offset `q` on: a length below two bytes
/// left ends the block.
pub open spec fn names_from(block: Seq<u8>, q: int) -> Result<Seq<Seq<char>>, MetadataError>
    decreases block.len() - q,
{
    if q < 0 || block.len() - q < 2 {
        Ok(Seq::empty())
    } else {
        let len = spec_u16_from_le_bytes(block.subrange(q, q + 2)) as int;
        if block.len() - (q + 2) < len {
            Err(MetadataError::NameTruncated)
        } else {
            match names_from(block, q + 2 + len) {
                Ok(rest) => Ok(seq![lossy_decode(block.subrange(q + 2, q + 2 + len))] + rest),
                Err(e) => Err(e),
            }
        }
    }
}

/// Reading the metadata: the version record, then, if four bytes of block
/// length follow, the name block (the block is filled with what is left of
/// the input and zeros after it, as a short read of a file leaves it).
/// Data of another version than the current one is refused, after the
/// names are read.
pub open spec fn metadata_at(input: Seq<u8>) -> Result<
    ((u16, u16, u16, Option<Seq<char>>), Seq<Seq<char>>),
    MetadataError,
> {
    match version_at(input, 0) {
        Err(_) => Err(MetadataError::VersionTruncated),
        Ok((v, p)) => {
            let names = if read_len(input, p, 4) != 4 {
                Ok(Seq::<Seq<char>>::empty())
            } else {
                let len = spec_u32_from_le_bytes(input.subrange(p, p + 4)) as int;
                names_from(read_buf(input, p + 4, len), 0)
            };
            match names {
                Err(e) => Err(e),
                Ok(ns) => if v != current_version() {
                    Err(MetadataError::VersionMismatch)
                } else {
                    Ok((v, ns))
                },
            }
        },
    }
}

/// The sum of the byte lengths of the names, each truncated to u32.
pub open spec fn name_bytes_len(names: Seq<Seq<char>>) -> int
    decreases names.len(),
{
    if names.len() == 0 {
        0
    } else {
        name_bytes_len(names.drop_last()) + (encode_utf8(names.last()).len() as u32) as int
    }
}

/// The name bytes one after another.
pub open spec fn joined_names(names: Seq<Seq<char>>) -> Seq<u8>
    decreases names.len(),
{
    if names.len() == 0 {
        Seq::empty()
    } else {
        joined_names(names.drop_last()) + encode_utf8(names.last())
    }
}

/// What saving writes.
pub open spec fn metadata_bytes(
    v: (u16, u16, u16, Option<Seq<char>>),
    names: Seq<Seq<char>>,
) -> Seq<u8> {
    let total = ((2 * names.len()) as u32) as int + name_bytes_len(names);
    version_bytes(v) + spec_u32_to_le_bytes(total as u32) + joined_names(names)
}

/// Saving does not overflow: the number of names doubled fits in usize
/// and the block length fits in u32.
pub open spec fn save_fits(names: Seq<Seq<char>>) -> bool {
    &&& 2 * names.len() <= usize::MAX
    &&& ((2 * names.len()) as u32) as int + name_bytes_len(names) <= u32::MAX
}

impl InstanceMetadata {
    /// The names of the databases.
    pub fn databases(&self) -> (r: &[String])
        ensures
            r@ == self.database_names@,
    {
        self.database_names.as_slice()
    }

    /// Records a new database name after the others.
    pub fn add_database(&mut self, name: &str)
        ensures
            name_views(final(self).database_names@) == name_views(old(self).database_names@).push(
                name@,
            ),
            final(self).version == old(self).version,
    {
        let ghost before = self.database_names@;
        self.database_names.push(name.to_owned());
        assert(name_views(self.database_names@) =~= name_views(before).push(name@));
    }

    /// Reads the metadata from the bytes of its file.
    pub fn new(input: &[u8]) -> (r: Result<Self, MetadataError>)
        ensures
            match r {
                Ok(m) => metadata_at(input@) == Ok::<
                    ((u16, u16, u16, Option<Seq<char>>), Seq<Seq<char>>),
                    MetadataError,
                >((m.version@, name_views(m.database_names@))),
                Err(e) => metadata_at(input@) == Err::<
                    ((u16, u16, u16, Option<Seq<char>>), Seq<Seq<char>>),
                    MetadataError,
                >(e),
            },
    {
        let (version, p) = match InstanceVersion::from_reader(input, 0) {
            Ok(found) => found,
            Err(_) => {
                return Err(MetadataError::VersionTruncated);
            },
        };
        let (len_buf, p2) = read_at(input, p, 4);
        let mut names: Vec<String> = Vec::new();
        if p2 - p == 4 {
            let len = u32_from_le_bytes(len_buf.as_slice());
            assert(len_buf@ =~= input@.subrange(p as int, p + 4));
            let (block, _) = read_at(input, p2, len as usize);
            let mut q: usize = 0;
            loop
                invariant
                    q <= block@.len(),
                    block@ == read_buf(input@, p2 as int, len as int),
                    version_at(input@, 0) == Ok::<
                        ((u16, u16, u16, Option<Seq<char>>), int),
                        version::VersionError,
                    >((version@, p as int)),
                    p2 == p + 4,
                    read_len(input@, p as int, 4) == 4,
                    len == spec_u32_from_le_bytes(input@.subrange(p as int, p + 4)),
                    match names_from(block@, q as int) {
                        Ok(rest) => names_from(block@, 0) == Ok::<Seq<Seq<char>>, MetadataError>(
                            name_views(names@) + rest,
                        ),
                        Err(e) => names_from(block@, 0) == Err::<Seq<Seq<char>>, MetadataError>(e),
                    },
                ensures
                    names_from(block@, 0) == Ok::<Seq<Seq<char>>, MetadataError>(name_views(names@)),
                decreases block@.len() - q,
            {
                let (len_bytes, q2) = read_at(block.as_slice(), q, 2);
                if q2 - q != 2 {
                    assert(names_from(block@, q as int) == Ok::<Seq<Seq<char>>, MetadataError>(
                        Seq::empty(),
                    ));
                    proof {
                        assert(name_views(names@) + Seq::<Seq<char>>::empty() =~= name_views(names@));
                    }
                    break;
                }
                assert(len_bytes@ =~= block@.subrange(q as int, q + 2));
                let name_len = u16_from_le_bytes(len_bytes.as_slice()) as usize;
                if block.len() - q2 < name_len {
                    assert(names_from(block@, q as int) == Err::<Seq<Seq<char>>, MetadataError>(
                        MetadataError::NameTruncated,
                    ));
                    return Err(MetadataError::NameTruncated);
                }
                let name = utf8_to_string_lossy(&block.as_slice()[q2..q2 + name_len]);
                let ghost before = names@;
                names.push(name);
                proof {
                    assert(name_views(names@) =~= name_views(before) + seq![name@]);
                    if let Ok(rest) = names_from(block@, (q2 + name_len) as int) {
                        assert(name_views(before) + (seq![name@] + rest) =~= name_views(names@)
                            + rest);
                    }
                }
                q = q2 + name_len;
            }
        }
        proof {
            let announced = spec_u32_from_le_bytes(input@.subrange(p as int, p + 4)) as int;
            if read_len(input@, p as int, 4) == 4 {
                assert(names_from(read_buf(input@, p + 4, announced), 0) == Ok::<
                    Seq<Seq<char>>,
                    MetadataError,
                >(name_views(names@)));
            } else {
                assert(name_views(names@) =~= Seq::<Seq<char>>::empty());
            }
        }
        if version != InstanceVersion::current() {
            return Err(MetadataError::VersionMismatch);
        }
        Ok(InstanceMetadata { version, database_names: names })
    }

    /// The bytes that saving writes at the start of the metadata file.
    pub fn save(&self) -> (r: Vec<u8>)
        requires
            save_fits(name_views(self.database_names@)),
        ensures
            r@ == metadata_bytes(self.version@, name_views(self.database_names@)),
    {
        let ghost names = name_views(self.database_names@);
        let mut out: Vec<u8> = Vec::new();
        self.version.save_to_writer(&mut out);
        let count = self.database_names.len();
        let total: u32 = if count == 0 {
            0
        } else {
            let mut total_len: u32 = (count * 2) as u32;
            let mut i: usize = 0;
            while i < count
                invariant
                    i <= count,
                    count == self.database_names@.len(),
                    names == name_views(self.database_names@),
                    save_fits(names),
                    total_len as int == ((2 * count) as u32) as int + name_bytes_len(names.take(i as int)),
                decreases count - i,
            {
                proof {
                    assert(names.take(i + 1).drop_last() =~= names.take(i as int));
                    lemma_name_bytes_len_prefix(names, i + 1);
                }
                let n = self.database_names[i].as_str().as_bytes().len();
                total_len = total_len + n as u32;
                i = i + 1;
            }
            assert(names.take(count as int) =~= names);
            total_len
        };
        let mut len_bytes = u32_to_le_bytes(total);
        out.append(&mut len_bytes);
        let ghost head = out@;
        let mut i: usize = 0;
        while i < count
            invariant
                i <= count,
                count == self.database_names@.len(),
                names == name_views(self.database_names@),
                out@ == head + joined_names(names.take(i as int)),
            decreases count - i,
        {
            let bytes = self.database_names[i].as_str().as_bytes();
            let mut j: usize = 0;
            let ghost mid = out@;
            while j < bytes.len()
                invariant
                    j <= bytes@.len(),
                    out@ == mid + bytes@.take(j as int),
                decreases bytes@.len() - j,
            {
                out.push(bytes[j]);
                j = j + 1;
                assert(out@ =~= mid + bytes@.take(j as int));
            }
            proof {
                assert(bytes@.take(bytes@.len() as int) =~= bytes@);
                assert(names.take(i + 1).drop_last() =~= names.take(i as int));
            }
            i = i + 1;
        }
        assert(names.take(count as int) =~= names);
        out
    }
}

/// The name byte total of a prefix is at most that of the whole.
proof fn lemma_name_bytes_len_prefix(names: Seq<Seq<char>>, i: int)
    requires
        0 <= i <= names.len(),
    ensures
        0 <= name_bytes_len(names.take(i)) <= name_bytes_len(names),
    decreases names.len(),
{
    if names.len() > 0 {
        if i == names.len() {
            assert(names.take(i) =~= names);
            lemma_name_bytes_len_nonneg(names);
        } else {
            assert(names.take(i) =~= names.drop_last().take(i));
            lemma_name_bytes_len_prefix(names.drop_last(), i);
        }
    }
}

proof fn lemma_name_bytes_len_nonneg(names: Seq<Seq<char>>)
    ensures
        name_bytes_len(names) >= 0,
    decreases names.len(),
{
    if names.len() > 0 {
        lemma_name_bytes_len_nonneg(names.drop_last());
    }
}

/// Metadata saved without database names reads back as the version that
/// was saved, or is refused when that is not the current version (the
/// version's tag absent or 1 to 255 bytes long). With names it does not
/// read back: saving leaves out the length of each name.
pub proof fn lemma_metadata_roundtrip_without_names(v: (u16, u16, u16, Option<Seq<char>>))
    requires
        v.3 matches Some(p) ==> 1 <= encode_utf8(p).len() <= 255,
    ensures
        metadata_at(metadata_bytes(v, Seq::empty())) == (if v == current_version() {
            Ok::<((u16, u16, u16, Option<Seq<char>>), Seq<Seq<char>>), MetadataError>(
                (v, Seq::empty()),
            )
        } else {
            Err::<((u16, u16, u16, Option<Seq<char>>), Seq<Seq<char>>), MetadataError>(
                MetadataError::VersionMismatch,
            )
        }),
{
    let tail = spec_u32_to_le_bytes(0u32);
    lemma_auto_spec_u32_to_from_le_bytes();
    let input = metadata_bytes(v, Seq::empty());
    assert(joined_names(Seq::<Seq<char>>::empty()) =~= Seq::<u8>::empty());
    assert(input =~= version_bytes(v) + tail);
    version::lemma_version_roundtrip(v, tail);
    let p = version_bytes(v).len() as int;
    assert(input.subrange(p, p + 4) =~= tail);
    assert(read_buf(input, p + 4, 0) =~= Seq::<u8>::empty());
}

/// A name block as reading expects it: each name's byte length (u16, little
/// endian) followed by its UTF-8 bytes.
pub open spec fn prefixed_names(names: Seq<Seq<char>>) -> Seq<u8>
    decreases names.len(),
{
    if names.len() == 0 {
        Seq::empty()
    } else {
        let b = encode_utf8(names[0]);
        spec_u16_to_le_bytes(b.len() as u16) + b + prefixed_names(names.drop_first())
    }
}

/// Reading names from offset `prefix.len() + q` of `prefix + block` reads
/// them from offset `q` of `block`: what comes before does not matter.
proof fn lemma_names_from_shift(prefix: Seq<u8>, block: Seq<u8>, q: int)
    requires
        0 <= q,
    ensures
        names_from(prefix + block, prefix.len() + q) == names_from(block, q),
    decreases block.len() - q,
{
    let all = prefix + block;
    let p = prefix.len() + q;
    if block.len() - q >= 2 {
        assert(all.subrange(p, p + 2) =~= block.subrange(q, q + 2));
        let len = spec_u16_from_le_bytes(block.subrange(q, q + 2)) as int;
        if block.len() - (q + 2) >= len {
            assert(all.subrange(p + 2, p + 2 + len) =~= block.subrange(q + 2, q + 2 + len));
            lemma_names_from_shift(prefix, block, q + 2 + len);
        }
    }
}

/// A block of length-prefixed names reads back as those names, each read
/// from all the bytes its length announces.
pub proof fn lemma_names_read_back(names: Seq<Seq<char>>)
    requires
        forall|i: int| 0 <= i < names.len() ==> encode_utf8(#[trigger] names[i]).len() <= u16::MAX,
    ensures
        names_from(prefixed_names(names), 0) == Ok::<Seq<Seq<char>>, MetadataError>(names),
    decreases names.len(),
{
    if names.len() == 0 {
        assert(names_from(Seq::<u8>::empty(), 0) == Ok::<Seq<Seq<char>>, MetadataError>(
            Seq::empty(),
        ));
        assert(names =~= Seq::<Seq<char>>::empty());
    } else {
        lemma_auto_spec_u16_to_from_le_bytes();
        let first = names[0];
        let rest = names.drop_first();
        assert forall|i: int| 0 <= i < rest.len() implies encode_utf8(#[trigger] rest[i]).len()
            <= u16::MAX by {
            assert(rest[i] == names[i + 1]);
        }
        lemma_names_read_back(rest);
        let b = encode_utf8(first);
        assert(encode_utf8(names[0]).len() <= u16::MAX);
        let h = spec_u16_to_le_bytes(b.len() as u16);
        let block = prefixed_names(names);
        assert(block == h + b + prefixed_names(rest));
        assert(block.subrange(0, 2) =~= h);
        assert(block.subrange(2, 2 + b.len() as int) =~= b);
        crate::text::lemma_decode_encode(first);
        lemma_names_from_shift(h + b, prefixed_names(rest), 0);
        assert(h + b + prefixed_names(rest) == (h + b) + prefixed_names(rest));
        assert(seq![first] + rest =~= names);
    }
}

/// A metadata file made of a version record, the length of a block of
/// length-prefixed names and that block reads back as the version and the
/// names, each name whole; data of another version than the current one is
/// refused (the version's tag absent or 1 to 255 bytes long).
pub proof fn lemma_metadata_with_names_read_back(
    v: (u16, u16, u16, Option<Seq<char>>),
    names: Seq<Seq<char>>,
)
    requires
        v.3 matches Some(p) ==> 1 <= encode_utf8(p).len() <= 255,
        forall|i: int| 0 <= i < names.len() ==> encode_utf8(#[trigger] names[i]).len() <= u16::MAX,
        prefixed_names(names).len() <= u32::MAX,
    ensures
        metadata_at(
            version_bytes(v) + spec_u32_to_le_bytes(prefixed_names(names).len() as u32)
                + prefixed_names(names),
        ) == (if v == current_version() {
            Ok::<((u16, u16, u16, Option<Seq<char>>), Seq<Seq<char>>), MetadataError>((v, names))
        } else {
            Err::<((u16, u16, u16, Option<Seq<char>>), Seq<Seq<char>>), MetadataError>(
                MetadataError::VersionMismatch,
            )
        }),
{
    lemma_auto_spec_u32_to_from_le_bytes();
    let block = prefixed_names(names);
    let len_bytes = spec_u32_to_le_bytes(block.len() as u32);
    let rest = len_bytes + block;
    let input = version_bytes(v) + len_bytes + block;
    assert(input =~= version_bytes(v) + rest);
    version::lemma_version_roundtrip(v, rest);
    let p = version_bytes(v).len() as int;
    assert(input.subrange(p, p + 4) =~= len_bytes);
    assert(read_buf(input, p + 4, block.len() as int) =~= block);
    lemma_names_read_back(names);
}

/// The encodings of the names one after another: the name bytes that
/// saving writes.
pub proof fn lemma_joined_names_is_flatten(names: Seq<Seq<char>>)
    ensures
        joined_names(names) == names.map_values(|n: Seq<char>| encode_utf8(n)).flatten(),
    decreases names.len(),
{
    let encs = names.map_values(|n: Seq<char>| encode_utf8(n));
    lemma_joined_names_is_flatten_alt(names);
    encs.lemma_flatten_and_flatten_alt_are_equivalent();
}

proof fn lemma_joined_names_is_flatten_alt(names: Seq<Seq<char>>)
    ensures
        joined_names(names) == names.map_values(|n: Seq<char>| encode_utf8(n)).flatten_alt(),
    decreases names.len(),
{
    let encs = names.map_values(|n: Seq<char>| encode_utf8(n));
    if names.len() > 0 {
        lemma_joined_names_is_flatten_alt(names.drop_last());
        assert(names.drop_last().map_values(|n: Seq<char>| encode_utf8(n)) =~= encs.drop_last());
        assert(encs.last() == encode_utf8(names.last()));
    }
}

/// Without truncation the name byte total is the length of the name bytes.
proof fn lemma_name_bytes_len_exact(names: Seq<Seq<char>>)
    requires
        forall|i: int| 0 <= i < names.len() ==> encode_utf8(#[trigger] names[i]).len() <= u32::MAX,
    ensures
        name_bytes_len(names) == joined_names(names).len(),
    decreases names.len(),
{
    if names.len() > 0 {
        let init = names.drop_last();
        assert forall|i: int| 0 <= i < init.len() implies encode_utf8(#[trigger] init[i]).len()
            <= u32::MAX by {
            assert(init[i] == names[i]);
        }
        assert(encode_utf8(names[names.len() - 1]).len() <= u32::MAX);
        lemma_name_bytes_len_exact(init);
    }
}

/// What saving writes after the version record: the block length, which is
/// twice the number of names plus the number of name bytes that follow it,
/// and then the UTF-8 bytes of the names one after another (where no length
/// is truncated to u32).
pub proof fn lemma_saved_block(v: (u16, u16, u16, Option<Seq<char>>), names: Seq<Seq<char>>)
    requires
        save_fits(names),
        2 * names.len() <= u32::MAX,
        forall|i: int| 0 <= i < names.len() ==> encode_utf8(#[trigger] names[i]).len() <= u32::MAX,
    ensures
        ({
            let bytes = metadata_bytes(v, names);
            let h = version_bytes(v).len() as int;
            &&& bytes.subrange(0, h) == version_bytes(v)
            &&& bytes.skip(h + 4) == names.map_values(|n: Seq<char>| encode_utf8(n)).flatten()
            &&& spec_u32_from_le_bytes(bytes.subrange(h, h + 4)) == 2 * names.len() + (bytes.len()
                - (h + 4))
        }),
{
    lemma_auto_spec_u32_to_from_le_bytes();
    lemma_joined_names_is_flatten(names);
    lemma_name_bytes_len_exact(names);
    let bytes = metadata_bytes(v, names);
    let h = version_bytes(v).len() as int;
    let total = ((2 * names.len()) as u32) as int + name_bytes_len(names);
    let len_bytes = spec_u32_to_le_bytes(total as u32);
    assert(bytes.subrange(0, h) =~= version_bytes(v));
    assert(bytes.subrange(h, h + 4) =~= len_bytes);
    assert(bytes.skip(h + 4) =~= joined_names(names));
}

} // verus!
