//! A single log segment: the record format and the bookkeeping of one
//! segment file.
//!
//! A record is `[magic: u32][length: u32][crc: u32][data]`, every integer
//! big-endian. A segment knows its base offset (the WAL offset of its first
//! byte) and its size; the file operations themselves are performed by the
//! caller, which hands the library the bytes it read.
use crate::bytes::{be32, from_be32, lemma_be32_roundtrip, push_be32, read_be32};
use crate::decimal::{decimal, decimal_string, parse_u64, parse_u64_spec};
use crate::error::Error;
use crate::storage::checksum::crc32_spec;
use vstd::prelude::*;
use vstd::string::{StrSliceExecFns, StringExecFns};

verus! {

/// The magic number that starts every record ("LOGS").
pub const MAGIC: u32 = 0x4C4F4753u32;

/// The size of a record header: magic, length and checksum.
pub const HEADER_SIZE: usize = 12usize;

/// Runs `crc32fast::Hasher` over `data` (`new`, `update`, `finalize`).
/// The contract states that the result is the CRC32 (IEEE) checksum of the
/// bytes, as `crc32_spec` defines it: reflected polynomial 0xEDB88320,
/// register starting at and finally xored with 0xFFFFFFFF.
#[verifier::external_body]
fn crc32fast_hash(data: &[u8]) -> (r: u32)
    ensures
        r == crc32_spec(data@),
{
    let mut hasher = crc32fast::Hasher::new();
    hasher.update(data);
    hasher.finalize()
}

/// The checksum stored in a record's header.
pub fn crc32(data: &[u8]) -> (r: u32)
    ensures
        r == crc32_spec(data@),
{
    crc32fast_hash(data)
}

/// The bytes of the record that holds `data`. The length field keeps the
/// low 32 bits of the length, as the on-disk format has room for no more.
pub open spec fn record_bytes(data: Seq<u8>) -> Seq<u8> {
    be32(MAGIC) + be32(data.len() as u32) + be32(crc32_spec(data)) + data
}

/// The data of the record stored at `pos` in `content`, if a well-formed
/// record is there: the header fits, the magic matches, the announced data
/// fits and its checksum matches.
pub open spec fn record_at(content: Seq<u8>, pos: int) -> Option<Seq<u8>> {
    if 0 <= pos && pos + 12 <= content.len() && from_be32(content, pos) == MAGIC {
        let len = from_be32(content, pos + 4);
        let crc = from_be32(content, pos + 8);
        let data = content.subrange(pos + 12, pos + 12 + len);
        if pos + 12 + len <= content.len() && crc32_spec(data) == crc {
            Some(data)
        } else {
            None
        }
    } else {
        None
    }
}

/// A record written into a segment reads back as the data it holds,
/// whatever precedes or follows it.
pub proof fn lemma_record_roundtrip(prefix: Seq<u8>, data: Seq<u8>, suffix: Seq<u8>)
    requires
        data.len() <= u32::MAX,
    ensures
        record_at(prefix + record_bytes(data) + suffix, prefix.len() as int) == Some(data),
{
    let c = prefix + record_bytes(data) + suffix;
    let p = prefix.len() as int;
    let l = data.len() as u32;
    let k = crc32_spec(data);
    assert(c == prefix + be32(MAGIC) + (be32(l) + be32(k) + data + suffix));
    lemma_be32_roundtrip(MAGIC, prefix, be32(l) + be32(k) + data + suffix);
    assert(c == (prefix + be32(MAGIC)) + be32(l) + (be32(k) + data + suffix));
    lemma_be32_roundtrip(l, prefix + be32(MAGIC), be32(k) + data + suffix);
    assert(c == (prefix + be32(MAGIC) + be32(l)) + be32(k) + (data + suffix));
    lemma_be32_roundtrip(k, prefix + be32(MAGIC) + be32(l), data + suffix);
    assert(c.subrange(p + 12, p + 12 + l) =~= data);
}

/// A well-formed record stays readable when bytes are appended after it.
pub proof fn lemma_record_at_extend(content: Seq<u8>, pos: int, more: Seq<u8>)
    requires
        record_at(content, pos) is Some,
    ensures
        record_at(content + more, pos) == record_at(content, pos),
{
    let c2 = content + more;
    assert(from_be32(c2, pos) == from_be32(content, pos));
    assert(from_be32(c2, pos + 4) == from_be32(content, pos + 4));
    assert(from_be32(c2, pos + 8) == from_be32(content, pos + 8));
    let len = from_be32(content, pos + 4);
    assert(c2.subrange(pos + 12, pos + 12 + len) =~= content.subrange(pos + 12, pos + 12 + len));
}

/// The bytes of the record holding `data`, ready to be appended to a
/// segment file.
pub fn encode_record(data: &[u8]) -> (r: Vec<u8>)
    ensures
        r@ == record_bytes(data@),
{
    let crc = crc32(data);
    let length = data.len() as u32;
    let mut r: Vec<u8> = Vec::new();
    push_be32(&mut r, MAGIC);
    push_be32(&mut r, length);
    push_be32(&mut r, crc);
    let ghost head = r@;
    let mut i: usize = 0;
    while i < data.len()
        invariant
            i <= data@.len(),
            r@ == head + data@.take(i as int),
        decreases data@.len() - i,
    {
        r.push(data[i]);
        i = i + 1;
        assert(r@ =~= head + data@.take(i as int));
    }
    assert(data@.take(data@.len() as int) =~= data@);
    r
}

/// The checked fields of a record header.
#[derive(Debug, Clone, Copy, PartialEq, Eq, Structural)]
pub struct RecordHeader {
    /// Length of the data that follows the header.
    pub length: u32,
    /// Checksum that the data must have.
    pub crc: u32,
}

/// "Invalid magic number: expected {MAGIC}, got {magic}".
pub open spec fn bad_magic_reason(magic: u32) -> Seq<char> {
    "Invalid magic number: expected "@ + decimal(MAGIC as nat) + ", got "@ + decimal(magic as nat)
}

/// "CRC mismatch: expected {expected}, got {actual}".
pub open spec fn bad_crc_reason(expected: u32, actual: u32) -> Seq<char> {
    "CRC mismatch: expected "@ + decimal(expected as nat) + ", got "@ + decimal(actual as nat)
}

/// Checks the magic number of the 12 header bytes of the record at WAL
/// offset `offset`, and returns its length and checksum.
pub fn parse_header(header: &[u8], offset: u64) -> (r: Result<RecordHeader, Error>)
    requires
        header@.len() == HEADER_SIZE,
    ensures
        r is Ok <==> from_be32(header@, 0) == MAGIC,
        r matches Ok(h) ==> h.length == from_be32(header@, 4) && h.crc == from_be32(header@, 8),
        r is Err ==> (r matches Err(Error::Corruption { offset: o, reason }) && o == offset
            && reason@ == bad_magic_reason(from_be32(header@, 0))),
{
    let magic = read_be32(header, 0);
    if magic != MAGIC {
        let reason = String::from_str("Invalid magic number: expected ").concat(
            decimal_string(MAGIC as u64).as_str(),
        ).concat(", got ").concat(decimal_string(magic as u64).as_str());
        return Err(Error::Corruption { offset, reason });
    }
    let length = read_be32(header, 4);
    let crc = read_be32(header, 8);
    Ok(RecordHeader { length, crc })
}

/// Checks the data read after `header` against its checksum and hands it
/// back.
pub fn check_data(data: Vec<u8>, header: RecordHeader, offset: u64) -> (r: Result<Vec<u8>, Error>)
    ensures
        r is Ok <==> crc32_spec(data@) == header.crc,
        r matches Ok(d) ==> d@ == data@,
        r is Err ==> (r matches Err(Error::Corruption { offset: o, reason }) && o == offset
            && reason@ == bad_crc_reason(header.crc, crc32_spec(data@))),
{
    let actual = crc32(data.as_slice());
    if actual != header.crc {
        let reason = String::from_str("CRC mismatch: expected ").concat(
            decimal_string(header.crc as u64).as_str(),
        ).concat(", got ").concat(decimal_string(actual as u64).as_str());
        return Err(Error::Corruption { offset, reason });
    }
    Ok(data)
}

/// Reading the header of the record at `pos`, then its data, and checking
/// both as `parse_header` and `check_data` do, succeeds exactly when
/// `record_at` finds a record there, and yields its data.
pub proof fn lemma_read_steps(content: Seq<u8>, pos: int)
    requires
        0 <= pos,
        pos + 12 <= content.len(),
    ensures
        ({
            let header = content.subrange(pos, pos + 12);
            let len = from_be32(header, 4) as int;
            &&& from_be32(header, 0) == from_be32(content, pos)
            &&& from_be32(header, 4) == from_be32(content, pos + 4)
            &&& from_be32(header, 8) == from_be32(content, pos + 8)
            &&& record_at(content, pos) is Some ==> {
                &&& from_be32(header, 0) == MAGIC
                &&& pos + 12 + len <= content.len()
                &&& crc32_spec(content.subrange(pos + 12, pos + 12 + len)) == from_be32(
                    header,
                    8,
                )
                &&& record_at(content, pos) == Some(content.subrange(pos + 12, pos + 12 + len))
            }
        }),
{
}

/// `file_name` with its ".log" extension removed, if it has one.
pub open spec fn strip_log_extension(file_name: Seq<char>) -> Option<Seq<char>> {
    if file_name.len() >= 4 && file_name.subrange(file_name.len() - 4, file_name.len() as int)
        == ".log"@ {
        Some(file_name.take(file_name.len() - 4))
    } else {
        None
    }
}

/// The base offset that a segment file name `<decimal>.log` denotes.
pub open spec fn base_offset_of_name(file_name: Seq<char>) -> Option<u64> {
    match strip_log_extension(file_name) {
        Some(stem) => parse_u64_spec(stem),
        None => None,
    }
}

/// The name of the file of the segment starting at `base`: twenty digits
/// and ".log".
pub open spec fn segment_file_name_spec(base: u64) -> Seq<char> {
    crate::decimal::fixed_digits(base as nat, 20) + ".log"@
}

/// A segment file name reads back as the base offset it was made from.
pub proof fn lemma_segment_file_name_roundtrip(base: u64)
    ensures
        base_offset_of_name(segment_file_name_spec(base)) == Some(base),
{
    reveal_strlit(".log");
    let d = crate::decimal::fixed_digits(base as nat, 20);
    crate::decimal::lemma_fixed_digits_len(base as nat, 20);
    let n = segment_file_name_spec(base);
    assert(n.subrange(n.len() - 4, n.len() as int) =~= ".log"@);
    assert(n.take(n.len() - 4) =~= d);
    crate::decimal::lemma_u64_fits_20_digits(base);
    crate::decimal::lemma_parse_fixed_digits(base, 20);
}

/// `format!("{:020}.log", base)`.
pub fn segment_file_name(base: u64) -> (r: String)
    ensures
        r@ == segment_file_name_spec(base),
{
    crate::decimal::fixed_width_decimal(base, 20).concat(".log")
}

/// Bookkeeping of one segment: where it starts, where its file is, how many
/// bytes it holds, and (as a model) which bytes the library put there.
pub struct LogSegment {
    base_offset: u64,
    path: String,
    size: u64,
    content: Ghost<Seq<u8>>,
}

impl LogSegment {
    pub closed spec fn spec_base_offset(&self) -> u64 {
        self.base_offset
    }

    pub closed spec fn spec_size(&self) -> u64 {
        self.size
    }

    pub closed spec fn spec_path(&self) -> Seq<char> {
        self.path@
    }

    /// The bytes of the segment file: those found when it was opened
    /// (not known here) followed by the records appended since.
    pub closed spec fn content(&self) -> Seq<u8> {
        self.content@
    }

    /// The modelled bytes are as many as the segment's size.
    pub open spec fn wf(&self) -> bool {
        self.content().len() == self.spec_size()
    }

    /// The outcome of `locate(offset)`: the position inside the segment, or
    /// the reason it is refused.
    pub open spec fn locate_spec(&self, offset: u64) -> Option<int> {
        if offset < self.spec_base_offset() {
            None
        } else if offset - self.spec_base_offset() >= self.spec_size() {
            None
        } else {
            Some(offset - self.spec_base_offset())
        }
    }

    /// A new, empty segment starting at `base_offset`, whose file is `path`.
    pub fn create(path: String, base_offset: u64) -> (r: Self)
        ensures
            r.wf(),
            r.spec_base_offset() == base_offset,
            r.spec_size() == 0,
            r.spec_path() == path@,
            r.content() == Seq::<u8>::empty(),
    {
        LogSegment { base_offset, path, size: 0, content: Ghost(Seq::empty()) }
    }

    /// An existing segment file `path`, named `file_name` and holding `size`
    /// bytes; its base offset comes from the name.
    pub fn open(path: String, file_name: &str, size: u64) -> (r: Result<Self, Error>)
        ensures
            r is Ok <==> base_offset_of_name(file_name@) is Some,
            r matches Ok(s) ==> {
                &&& s.wf()
                &&& s.spec_base_offset() == base_offset_of_name(file_name@)->0
                &&& s.spec_size() == size
                &&& s.spec_path() == path@
            },
            r is Err ==> (r matches Err(Error::Corruption { offset, .. }) && offset == 0),
    {
        let base_offset = Self::parse_base_offset(file_name)?;
        assert(Seq::new(size as nat, |i: int| 0u8).len() == size);
        Ok(
            LogSegment {
                base_offset,
                path,
                size,
                content: Ghost(choose|c: Seq<u8>| c.len() == size),
            },
        )
    }

    /// The base offset denoted by a segment file name `<decimal>.log`.
    pub fn parse_base_offset(file_name: &str) -> (r: Result<u64, Error>)
        ensures
            r is Ok <==> base_offset_of_name(file_name@) is Some,
            r matches Ok(b) ==> Some(b) == base_offset_of_name(file_name@),
            r is Err ==> (r matches Err(Error::Corruption { offset, reason }) && offset == 0
                && (strip_log_extension(file_name@) is None ==> reason@ == "Invalid file extension"@)
                && (strip_log_extension(file_name@) matches Some(stem) ==> reason@
                == "Invalid base offset format: "@ + stem)),
    {
        proof {
            reveal_strlit(".log");
        }
        let n = file_name.unicode_len();
        let has_ext = n >= 4 && file_name.get_char(n - 4) == '.' && file_name.get_char(n - 3)
            == 'l' && file_name.get_char(n - 2) == 'o' && file_name.get_char(n - 1) == 'g';
        assert(has_ext <==> strip_log_extension(file_name@) is Some) by {
            if n >= 4 {
                let t = file_name@.subrange(n - 4, n as int);
                if has_ext {
                    assert(t =~= ".log"@);
                } else if t == ".log"@ {
                    assert(t[0] == '.' && t[1] == 'l' && t[2] == 'o' && t[3] == 'g');
                }
            }
        }
        if !has_ext {
            return Err(
                Error::Corruption { offset: 0, reason: String::from_str("Invalid file extension") },
            );
        }
        let stem = file_name.substring_char(0, n - 4);
        assert(stem@ =~= file_name@.take(n - 4));
        match parse_u64(stem) {
            Some(v) => Ok(v),
            None => Err(
                Error::Corruption {
                    offset: 0,
                    reason: String::from_str("Invalid base offset format: ").concat(stem),
                },
            ),
        }
    }

    /// The WAL offset of the segment's first byte.
    pub fn base_offset(&self) -> (r: u64)
        ensures
            r == self.spec_base_offset(),
    {
        self.base_offset
    }

    /// The number of bytes in the segment.
    pub fn size(&self) -> (r: u64)
        ensures
            r == self.spec_size(),
    {
        self.size
    }

    /// The path of the segment file.
    pub fn path(&self) -> (r: &str)
        ensures
            r@ == self.spec_path(),
    {
        self.path.as_str()
    }

    /// Records that the bytes of `encode_record(data)` were appended to the
    /// segment file, and returns the WAL offset of the new record.
    pub fn append(&mut self, data: &[u8]) -> (r: u64)
        requires
            old(self).wf(),
            old(self).spec_size() + HEADER_SIZE + data@.len() <= u64::MAX,
            old(self).spec_base_offset() + old(self).spec_size() <= u64::MAX,
        ensures
            final(self).wf(),
            r == old(self).spec_base_offset() + old(self).spec_size(),
            final(self).spec_base_offset() == old(self).spec_base_offset(),
            final(self).spec_path() == old(self).spec_path(),
            final(self).spec_size() == old(self).spec_size() + HEADER_SIZE + data@.len(),
            final(self).content() == old(self).content() + record_bytes(data@),
            final(self).locate_spec(r) == Some(old(self).spec_size() as int),
            data@.len() <= u32::MAX ==> record_at(final(self).content(), old(self).spec_size() as int)
                == Some(data@),
    {
        let offset = self.size;
        proof {
            if data@.len() <= u32::MAX {
                lemma_record_roundtrip(self.content@, data@, Seq::empty());
                assert(self.content@ + record_bytes(data@) + Seq::<u8>::empty() =~= self.content@
                    + record_bytes(data@));
            }
        }
        self.size = self.size + HEADER_SIZE as u64 + data.len() as u64;
        self.content = Ghost(self.content@ + record_bytes(data@));
        self.base_offset + offset
    }

    /// The position inside the segment of WAL offset `offset`, refusing
    /// offsets before the segment and at or past its end.
    pub fn locate(&self, offset: u64) -> (r: Result<u64, Error>)
        ensures
            r is Ok <==> self.locate_spec(offset) is Some,
            r matches Ok(p) ==> self.locate_spec(offset) == Some(p as int),
            r is Err ==> (r matches Err(Error::Corruption { offset: o, reason }) && o == offset
                && (offset < self.spec_base_offset() ==> reason@ == "Offset is before base offset"@)
                && (offset >= self.spec_base_offset() ==> reason@ == "Offset "@ + decimal(
                offset as nat,
            ) + " is beyond segment size "@ + decimal(self.spec_size() as nat))),
    {
        if offset < self.base_offset {
            return Err(
                Error::Corruption {
                    offset,
                    reason: String::from_str("Offset is before base offset"),
                },
            );
        }
        let relative = offset - self.base_offset;
        if relative >= self.size {
            let reason = String::from_str("Offset ").concat(decimal_string(offset).as_str()).concat(
                " is beyond segment size ",
            ).concat(decimal_string(self.size).as_str());
            return Err(Error::Corruption { offset, reason });
        }
        Ok(relative)
    }
}

} // verus!
