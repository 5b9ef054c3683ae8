//! One segment of a log kept in a byte store: records are appended after a
//! segment header and read back one by one, in the record format of
//! `crate::segment`. The store is any `Storage`; the segment shares one
//! write position between its readers and its writer.
use crate::bytes::{from_be32, read_be32};
use crate::decimal::{decimal, decimal_string, hex8, hex_digits};
use crate::error::Error;
use crate::segment::{encode_record, lemma_record_roundtrip, record_at, record_bytes, MAGIC};
use crate::storage::checksum::{crc32, crc32_spec};
use crate::storage::{read_range, Storage};
use vstd::prelude::*;
use vstd::string::StringExecFns;

verus! {

/// The size of the header at the start of a segment file.
pub const SEGMENT_HEADER_SIZE: u64 = 16u64;

/// The size of a record header: magic, length and checksum.
pub const RECORD_HEADER_SIZE: u64 = 12u64;

/// The largest record that can be written or read: 64 MiB.
pub const MAX_RECORD_SIZE: u64 = 67108864u64;

/// Where a record's data was written.
#[derive(Debug, Clone, Copy, PartialEq, Eq, Structural)]
pub struct WritePosition {
    /// The segment's id.
    pub segment_id: u64,
    /// Offset of the data within the segment, after the record header.
    pub offset: u64,
    /// Length of the data.
    pub length: u64,
}

/// One record read, with the offset of the record that follows.
#[derive(Debug, Clone)]
pub struct ReadNextResult {
    /// The record's data.
    pub data: Vec<u8>,
    /// Offset of the next record.
    pub next_offset: u64,
}

/// Several records read, with the offset of the record that follows.
#[derive(Debug, Clone)]
pub struct ReadBatchResult {
    /// The records' data, in order.
    pub records: Vec<Vec<u8>>,
    /// Offset of the next record.
    pub next_offset: u64,
}

/// Raw bytes read, with the offset just past them.
#[derive(Debug, Clone)]
pub struct ReadRawResult {
    /// The bytes read.
    pub data: Vec<u8>,
    /// Offset just past the bytes read.
    pub end_offset: u64,
}

/// The message of the error for a record whose magic is `magic`.
pub open spec fn bad_magic_message(magic: u32) -> Seq<char> {
    "Invalid record magic: "@ + hex_digits(magic as nat, 8)
}

/// The message of the error for a record announcing `length` bytes.
pub open spec fn bad_length_message(length: nat) -> Seq<char> {
    "Invalid record length: "@ + decimal(length)
}

/// The message of the error for a record of which `got` of `expected`
/// bytes could be read.
pub open spec fn incomplete_message(expected: nat, got: nat) -> Seq<char> {
    "Incomplete read: expected "@ + decimal(expected) + " bytes, got "@ + decimal(got)
}

/// The message of the error for data whose checksum is `actual` where
/// `expected` was recorded.
pub open spec fn crc_mismatch_message(expected: u32, actual: u32) -> Seq<char> {
    "CRC32 mismatch: expected "@ + hex_digits(expected as nat, 8) + ", got "@ + hex_digits(actual as nat, 8)
}

/// Whether a record that can be read lies at `o` in `c`: well-formed, with
/// between 1 and `MAX_RECORD_SIZE` bytes of data.
pub open spec fn good_record_at(c: Seq<u8>, o: int) -> bool {
    record_at(c, o) matches Some(d) && 0 < d.len() <= MAX_RECORD_SIZE
}

/// The message of the error for the record header that lies whole at `o`
/// in `c` but starts no record that can be read: the first of the checks on
/// magic, length, completeness and checksum that fails.
pub open spec fn record_error_message(c: Seq<u8>, o: int) -> Seq<char> {
    let length = from_be32(c, o + 4);
    if from_be32(c, o) != MAGIC {
        bad_magic_message(from_be32(c, o))
    } else if length == 0 || length > MAX_RECORD_SIZE {
        bad_length_message(length as nat)
    } else if o + 12 + length > c.len() {
        incomplete_message(length as nat, (c.len() - o - 12) as nat)
    } else {
        crc_mismatch_message(from_be32(c, o + 8), crc32_spec(c.subrange(o + 12, o + 12 + length)))
    }
}

/// Whether `r` is what reading the record at `o` of `c` gives: its data
/// where a record that can be read lies there; the end of the segment
/// where not even a record header fits; else the error that
/// `record_error_message` describes.
pub open spec fn record_read_outcome(c: Seq<u8>, o: int, r: Result<Seq<u8>, Error>) -> bool {
    match r {
        Ok(d) => record_at(c, o) == Some(d) && 0 < d.len() <= MAX_RECORD_SIZE,
        Err(Error::Eof) => o + 12 > c.len(),
        Err(Error::Generic(m)) => o + 12 <= c.len() && !good_record_at(c, o) && m@ == record_error_message(c, o),
        Err(_) => false,
    }
}

/// The data of a record read, or the error.
pub open spec fn next_data(r: Result<ReadNextResult, Error>) -> Result<Seq<u8>, Error> {
    match r {
        Ok(x) => Ok(x.data@),
        Err(e) => Err(e),
    }
}

/// Checks the header bytes read for a record: fewer than a whole header is
/// the end of the segment; the magic must match and the announced length
/// must be neither 0 nor above `MAX_RECORD_SIZE`. Returns the length and
/// the checksum.
pub fn check_record_header(header: &[u8]) -> (r: Result<(u64, u32), Error>)
    ensures
        header@.len() < 12 ==> r matches Err(Error::Eof),
        header@.len() >= 12 && from_be32(header@, 0) != MAGIC ==> (r matches Err(Error::Generic(m))
            && m@ == bad_magic_message(from_be32(header@, 0))),
        header@.len() >= 12 && from_be32(header@, 0) == MAGIC && (from_be32(header@, 4) == 0
            || from_be32(header@, 4) > MAX_RECORD_SIZE) ==> (r matches Err(Error::Generic(m)) && m@
            == bad_length_message(from_be32(header@, 4) as nat)),
        header@.len() >= 12 && from_be32(header@, 0) == MAGIC && 0 < from_be32(header@, 4)
            <= MAX_RECORD_SIZE ==> r == Ok::<(u64, u32), Error>((from_be32(header@, 4) as u64, from_be32(header@, 8))),
{
    if header.len() < 12 {
        return Err(Error::Eof);
    }
    let magic = read_be32(header, 0);
    if magic != MAGIC {
        return Err(Error::Generic(String::from_str("Invalid record magic: ").concat(hex8(magic).as_str())));
    }
    let length = read_be32(header, 4) as u64;
    if length == 0 || length > MAX_RECORD_SIZE {
        return Err(Error::Generic(String::from_str("Invalid record length: ").concat(decimal_string(length).as_str())));
    }
    let crc = read_be32(header, 8);
    Ok((length, crc))
}

/// Checks the data read for a record announced with `length` bytes and
/// checksum `expected_crc`, whose data starts at `data_offset`: all of it
/// must have been read and its checksum must match. Returns it with the
/// offset of the next record.
pub fn check_record_data(data: Vec<u8>, length: u64, expected_crc: u32, data_offset: u64) -> (r: Result<ReadNextResult, Error>)
    requires
        data_offset + length <= u64::MAX,
    ensures
        data@.len() != length ==> (r matches Err(Error::Generic(m)) && m@ == incomplete_message(length as nat, data@.len())),
        data@.len() == length && crc32_spec(data@) != expected_crc ==> (r matches Err(Error::Generic(m)) && m@
            == crc_mismatch_message(expected_crc, crc32_spec(data@))),
        data@.len() == length && crc32_spec(data@) == expected_crc ==> (r matches Ok(x) && x.data@ == data@
            && x.next_offset == data_offset + length),
{
    if data.len() as u64 != length {
        return Err(Error::Generic(String::from_str("Incomplete read: expected ").concat(decimal_string(length).as_str()).concat(" bytes, got ").concat(decimal_string(data.len() as u64).as_str())));
    }
    let actual_crc = crc32(data.as_slice());
    if actual_crc != expected_crc {
        return Err(Error::Generic(String::from_str("CRC32 mismatch: expected ").concat(hex8(expected_crc).as_str()).concat(", got ").concat(hex8(actual_crc).as_str())));
    }
    Ok(ReadNextResult { data, next_offset: data_offset + length })
}

/// Whether `records` lie one after the other in `c` from `offset`, each a
/// well-formed record of at most `MAX_RECORD_SIZE` non-empty bytes.
pub open spec fn records_from(c: Seq<u8>, offset: int, records: Seq<Seq<u8>>) -> bool
    decreases records.len(),
{
    if records.len() == 0 {
        true
    } else {
        &&& record_at(c, offset) == Some(records[0])
        &&& 0 < records[0].len() <= MAX_RECORD_SIZE
        &&& records_from(c, offset + 12 + records[0].len(), records.drop_first())
    }
}

/// Where the records `records` starting at `offset` end.
pub open spec fn records_end(offset: int, records: Seq<Seq<u8>>) -> int
    decreases records.len(),
{
    if records.len() == 0 {
        offset
    } else {
        records_end(offset + 12 + records[0].len(), records.drop_first())
    }
}

/// One segment of a log kept in the store `S`.
pub struct LogSegment<S: Storage> {
    segment_id: u64,
    storage: S,
    write_position: u64,
}

impl<S: Storage> LogSegment<S> {
    /// The segment's id.
    pub closed spec fn spec_segment_id(&self) -> u64 {
        self.segment_id
    }

    /// The store.
    pub closed spec fn spec_storage(&self) -> S {
        self.storage
    }

    /// Where the next record goes, as far as this segment knows.
    pub closed spec fn spec_write_position(&self) -> u64 {
        self.write_position
    }

    /// The bytes of the segment.
    pub open spec fn contents(&self) -> Seq<u8> {
        self.spec_storage().contents()
    }

    /// Whether the store's every operation succeeds.
    pub open spec fn reliable(&self) -> bool {
        self.spec_storage().reliable()
    }

    /// A new segment in `storage`, whose first record goes after the
    /// segment header.
    pub fn new(storage: S, segment_id: u64) -> (r: Self)
        ensures
            r.spec_storage() == storage,
            r.spec_segment_id() == segment_id,
            r.spec_write_position() == SEGMENT_HEADER_SIZE,
    {
        LogSegment { segment_id, storage, write_position: SEGMENT_HEADER_SIZE }
    }

    /// An existing segment in `storage`, whose next record goes at its end.
    pub fn from_existing(storage: S, segment_id: u64) -> (r: Result<Self, Error>)
        ensures
            storage.reliable() ==> r is Ok,
            r matches Ok(s) ==> s.spec_storage() == storage && s.spec_segment_id() == segment_id
                && s.spec_write_position() == storage.contents().len(),
    {
        let size = match storage.size() {
            Ok(s) => s,
            Err(e) => return Err(e),
        };
        Ok(LogSegment { segment_id, storage, write_position: size })
    }

    /// The segment's id.
    pub fn segment_id(&self) -> (r: u64)
        ensures
            r == self.spec_segment_id(),
    {
        self.segment_id
    }

    /// The store.
    pub fn storage(&self) -> (r: &S)
        ensures
            *r == self.spec_storage(),
    {
        &self.storage
    }

    /// Appends the record holding `data` at the end of the segment and
    /// returns where its data lies.
    pub fn append(&mut self, data: &[u8]) -> (r: Result<WritePosition, Error>)
        requires
            old(self).contents().len() + 12 + data@.len() <= usize::MAX,
        ensures
            final(self).spec_segment_id() == old(self).spec_segment_id(),
            final(self).reliable() == old(self).reliable(),
            old(self).reliable() ==> r is Ok,
            r is Err ==> final(self).spec_write_position() == old(self).spec_write_position(),
            r matches Ok(p) ==> {
                &&& p == (WritePosition {
                    segment_id: old(self).spec_segment_id(),
                    offset: (old(self).contents().len() + 12) as u64,
                    length: data@.len() as u64,
                })
                &&& final(self).contents() == old(self).contents() + record_bytes(data@)
                &&& final(self).spec_write_position() == old(self).contents().len() + 12 + data@.len()
            },
    {
        let record = encode_record(data);
        let start = match self.storage.append(record.as_slice()) {
            Ok(o) => o,
            Err(e) => return Err(e),
        };
        let data_offset = start + 12;
        self.write_position = data_offset + data.len() as u64;
        Ok(WritePosition { segment_id: self.segment_id, offset: data_offset, length: data.len() as u64 })
    }

    /// Appends the records holding each of `data_list`, in order, with one
    /// write, and returns where each one's data lies.
    pub fn append_batch(&mut self, data_list: &[&[u8]]) -> (r: Result<Vec<WritePosition>, Error>)
        requires
            old(self).contents().len() + batch_len(data_list@.map_values(|d: &[u8]| d@)) <= usize::MAX,
        ensures
            final(self).spec_segment_id() == old(self).spec_segment_id(),
            final(self).reliable() == old(self).reliable(),
            old(self).reliable() ==> r is Ok,
            data_list@.len() == 0 ==> (r matches Ok(v) && v@.len() == 0 && *final(self) == *old(self)),
            r is Err ==> final(self).spec_write_position() == old(self).spec_write_position(),
            r matches Ok(v) ==> ({
                let ds = data_list@.map_values(|d: &[u8]| d@);
                &&& v@.len() == ds.len()
                &&& final(self).contents() == old(self).contents() + batch_bytes(ds)
                &&& forall|i: int|
                    0 <= i < ds.len() ==> #[trigger] v@[i] == (WritePosition {
                        segment_id: old(self).spec_segment_id(),
                        offset: (old(self).contents().len() + batch_len(ds.take(i)) + 12) as u64,
                        length: ds[i].len() as u64,
                    })
                &&& ds.len() > 0 ==> final(self).spec_write_position() == old(self).contents().len()
                    + batch_len(ds)
            }),
    {
        let ghost ds = data_list@.map_values(|d: &[u8]| d@);
        if data_list.len() == 0 {
            return Ok(Vec::new());
        }
        proof {
            lemma_batch_bytes_len(ds);
        }
        let all = encode_batch(data_list);
        let start = match self.storage.append(all.as_slice()) {
            Ok(o) => o,
            Err(e) => return Err(e),
        };
        let positions = batch_positions(self.segment_id, start, data_list);
        self.write_position = start + all.len() as u64;
        Ok(positions)
    }

    /// Makes the segment's bytes durable.
    pub fn sync(&mut self) -> (r: Result<(), Error>)
        ensures
            final(self).contents() == old(self).contents(),
            final(self).reliable() == old(self).reliable(),
            old(self).reliable() ==> r is Ok,
            final(self).spec_segment_id() == old(self).spec_segment_id(),
            final(self).spec_write_position() == old(self).spec_write_position(),
    {
        self.storage.sync()
    }

    /// The number of bytes of the segment.
    pub fn size(&self) -> (r: Result<u64, Error>)
        ensures
            self.reliable() ==> r is Ok,
            r matches Ok(s) ==> s == self.contents().len(),
    {
        self.storage.size()
    }

    /// Where the next record goes, as far as this segment knows.
    pub fn write_position(&self) -> (r: u64)
        ensures
            r == self.spec_write_position(),
    {
        self.write_position
    }

    /// Reads at most `length` bytes at `offset`.
    pub fn read(&mut self, offset: u64, length: u64) -> (r: Result<Vec<u8>, Error>)
        ensures
            final(self).contents() == old(self).contents(),
            final(self).spec_segment_id() == old(self).spec_segment_id(),
            final(self).spec_write_position() == old(self).spec_write_position(),
            final(self).reliable() == old(self).reliable(),
            old(self).reliable() ==> r is Ok,
            r matches Ok(d) ==> d@ == read_range(old(self).contents(), offset as int, length as int),
    {
        self.storage.read(offset, length)
    }

    /// Reads the record at `offset`: the header, checked by
    /// `check_record_header`, then the data, checked by `check_record_data`.
    pub fn read_next(&mut self, offset: u64) -> (r: Result<ReadNextResult, Error>)
        requires
            offset + 12 + MAX_RECORD_SIZE <= usize::MAX,
        ensures
            final(self).contents() == old(self).contents(),
            final(self).spec_segment_id() == old(self).spec_segment_id(),
            final(self).spec_write_position() == old(self).spec_write_position(),
            final(self).reliable() == old(self).reliable(),
            old(self).reliable() ==> record_read_outcome(old(self).contents(), offset as int, next_data(r)),
            r matches Ok(x) ==> record_at(old(self).contents(), offset as int) == Some(x.data@) && 0 < x.data@.len()
                <= MAX_RECORD_SIZE && x.next_offset == offset + 12 + x.data@.len(),
    {
        let ghost c = self.contents();
        let ghost o = offset as int;
        let header = match self.storage.read(offset, 12) {
            Ok(h) => h,
            Err(e) => return Err(e),
        };
        proof {
            if o + 12 <= c.len() {
                assert(header@ =~= c.subrange(o, o + 12));
                assert(from_be32(header@, 0) == from_be32(c, o));
                assert(from_be32(header@, 4) == from_be32(c, o + 4));
                assert(from_be32(header@, 8) == from_be32(c, o + 8));
            }
        }
        let (length, expected_crc) = match check_record_header(header.as_slice()) {
            Ok(p) => p,
            Err(e) => return Err(e),
        };
        let data_offset = offset + 12;
        let data = match self.storage.read(data_offset, length) {
            Ok(d) => d,
            Err(e) => return Err(e),
        };
        proof {
            if o + 12 + length <= c.len() {
                assert(data@ =~= c.subrange(o + 12, o + 12 + length));
            }
        }
        check_record_data(data, length, expected_crc, data_offset)
    }

    /// Reads at most `max_count` records from `offset`, stopping early at
    /// the end of the segment; any other error is returned.
    pub fn read_batch(&mut self, offset: u64, max_count: usize) -> (r: Result<ReadBatchResult, Error>)
        requires
            offset + 12 + MAX_RECORD_SIZE <= usize::MAX,
        ensures
            final(self).contents() == old(self).contents(),
            final(self).spec_segment_id() == old(self).spec_segment_id(),
            final(self).spec_write_position() == old(self).spec_write_position(),
            final(self).reliable() == old(self).reliable(),
            r matches Ok(b) ==> b.records@.len() <= max_count && records_from(
                old(self).contents(),
                offset as int,
                b.records@.map_values(|v: Vec<u8>| v@),
            ) && b.next_offset == records_end(offset as int, b.records@.map_values(|v: Vec<u8>| v@)),
            old(self).reliable() ==> batch_read_outcome(
                old(self).contents(),
                offset as int,
                max_count as int,
                match r {
                    Ok(b) => Ok(b.records@.map_values(|v: Vec<u8>| v@)),
                    Err(e) => Err(e),
                },
            ),
    {
        let mut records: Vec<Vec<u8>> = Vec::new();
        let mut current_offset = offset;
        let ghost c = self.contents();
        let mut n: usize = 0;
        while n < max_count
            invariant
                n <= max_count,
                records@.len() == n,
                self.contents() == c,
                c == old(self).contents(),
                self.spec_segment_id() == old(self).spec_segment_id(),
                self.spec_write_position() == old(self).spec_write_position(),
                self.reliable() == old(self).reliable(),
                offset <= current_offset,
                records_from(c, offset as int, records@.map_values(|v: Vec<u8>| v@)),
                current_offset == records_end(offset as int, records@.map_values(|v: Vec<u8>| v@)),
                offset + 12 + MAX_RECORD_SIZE <= usize::MAX,
            ensures
                n <= max_count,
                records@.len() == n,
                self.contents() == c,
                self.spec_segment_id() == old(self).spec_segment_id(),
                self.spec_write_position() == old(self).spec_write_position(),
                self.reliable() == old(self).reliable(),
                records_from(c, offset as int, records@.map_values(|v: Vec<u8>| v@)),
                current_offset == records_end(offset as int, records@.map_values(|v: Vec<u8>| v@)),
                batch_stopped(c, n as int, max_count as int, current_offset as int, self.reliable()),
            decreases max_count - n,
        {
            if current_offset > usize::MAX as u64 - 12 - MAX_RECORD_SIZE {
                break;
            }
            match self.read_next(current_offset) {
                Ok(result) => {
                    let ghost before = records@.map_values(|v: Vec<u8>| v@);
                    let ghost d = result.data@;
                    proof {
                        lemma_records_push(c, offset as int, before, d);
                    }
                    current_offset = result.next_offset;
                    records.push(result.data);
                    assert(records@.map_values(|v: Vec<u8>| v@) =~= before.push(d));
                },
                Err(Error::Eof) => {
                    break;
                },
                Err(e) => {
                    proof {
                        let k = records@.map_values(|v: Vec<u8>| v@);
                        if old(self).reliable() {
                            assert(records_from(c, offset as int, k) && record_read_outcome(
                                c,
                                records_end(offset as int, k),
                                Err(e),
                            ));
                        }
                    }
                    return Err(e);
                },
            }
            n = n + 1;
        }
        Ok(ReadBatchResult { records, next_offset: current_offset })
    }

    /// Reads at most `length` raw bytes at `offset`, with the offset just
    /// past them.
    pub fn read_raw(&mut self, offset: u64, length: usize) -> (r: Result<ReadRawResult, Error>)
        requires
            offset + length <= u64::MAX,
        ensures
            final(self).contents() == old(self).contents(),
            final(self).spec_segment_id() == old(self).spec_segment_id(),
            final(self).spec_write_position() == old(self).spec_write_position(),
            final(self).reliable() == old(self).reliable(),
            old(self).reliable() ==> r is Ok,
            r matches Ok(x) ==> x.data@ == read_range(old(self).contents(), offset as int, length as int)
                && x.end_offset == offset + x.data@.len(),
    {
        let data = match self.storage.read(offset, length as u64) {
            Ok(d) => d,
            Err(e) => return Err(e),
        };
        let end_offset = offset + data.len() as u64;
        Ok(ReadRawResult { data, end_offset })
    }

    /// Whether `offset` lies after the segment header and before the end of
    /// the segment; `false` when the size cannot be had.
    pub fn is_valid_offset(&self, offset: u64) -> (r: bool)
        ensures
            r ==> SEGMENT_HEADER_SIZE <= offset < self.contents().len(),
            self.reliable() ==> r == (SEGMENT_HEADER_SIZE <= offset < self.contents().len()),
    {
        let size = match self.size() {
            Ok(s) => s,
            Err(_) => return false,
        };
        offset >= SEGMENT_HEADER_SIZE && offset < size
    }
}

/// Whether reading records stopped for one of its reasons after `n` of at
/// most `max_count` records, the next one due at `p`: the count was
/// reached; the next record would reach past the offsets this reader
/// handles; or, on a store whose operations succeed, not even a record
/// header fits at `p`.
pub open spec fn batch_stopped(c: Seq<u8>, n: int, max_count: int, p: int, reliable: bool) -> bool {
    ||| n == max_count
    ||| p > usize::MAX - 12 - MAX_RECORD_SIZE
    ||| (reliable ==> p + 12 > c.len())
}

/// Whether `r` is what reading at most `max_count` records from `offset`
/// of `c` gives: the records that lie one after the other there, up to the
/// count, up to where not even a record header fits, or up to the offsets a
/// reader handles; or, where a record header before those limits starts no
/// record that can be read, the error reading it gives.
pub open spec fn batch_read_outcome(c: Seq<u8>, offset: int, max_count: int, r: Result<Seq<Seq<u8>>, Error>) -> bool {
    match r {
        Ok(ds) => records_from(c, offset, ds) && ds.len() <= max_count && batch_stopped(
            c,
            ds.len() as int,
            max_count,
            records_end(offset, ds),
            true,
        ),
        Err(e) => exists|k: Seq<Seq<u8>>|
            #![trigger records_from(c, offset, k)]
            records_from(c, offset, k) && k.len() < max_count && records_end(offset, k) <= usize::MAX - 12
                - MAX_RECORD_SIZE && record_read_outcome(c, records_end(offset, k), Err(e)) && !(e is Eof),
    }
}

/// The bytes of the records holding each of `data_list`, one after the
/// other.
pub fn encode_batch(data_list: &[&[u8]]) -> (r: Vec<u8>)
    requires
        batch_len(data_list@.map_values(|d: &[u8]| d@)) <= usize::MAX,
    ensures
        r@ == batch_bytes(data_list@.map_values(|d: &[u8]| d@)),
{
    let ghost ds = data_list@.map_values(|d: &[u8]| d@);
    let mut all: Vec<u8> = Vec::new();
    let mut i: usize = 0;
    proof {
        lemma_batch_len_prefix(ds, 0);
    }
    while i < data_list.len()
        invariant
            i <= data_list@.len(),
            ds == data_list@.map_values(|d: &[u8]| d@),
            batch_len(ds) <= usize::MAX,
            all@ == batch_bytes(ds.take(i as int)),
            all@.len() == batch_len(ds.take(i as int)),
        decreases data_list@.len() - i,
    {
        proof {
            assert(ds.take(i + 1).drop_last() =~= ds.take(i as int));
            lemma_batch_len_prefix(ds, i + 1);
        }
        let rec = encode_record(data_list[i]);
        let ghost before = all@;
        let mut j: usize = 0;
        while j < rec.len()
            invariant
                j <= rec@.len(),
                all@ == before + rec@.take(j as int),
                before.len() + rec@.len() <= usize::MAX,
            decreases rec@.len() - j,
        {
            all.push(rec[j]);
            j = j + 1;
            assert(all@ =~= before + rec@.take(j as int));
        }
        assert(rec@.take(j as int) =~= rec@);
        i = i + 1;
        proof {
            assert(ds.take(i as int).last() == data_list@[i - 1]@);
        }
    }
    assert(ds.take(i as int) =~= ds);
    all
}

/// Where the data of each record lies when the records holding each of
/// `data_list` are appended, one after the other, at `start` of segment
/// `segment_id`.
pub fn batch_positions(segment_id: u64, start: u64, data_list: &[&[u8]]) -> (r: Vec<WritePosition>)
    requires
        start + batch_len(data_list@.map_values(|d: &[u8]| d@)) <= usize::MAX,
    ensures
        r@.len() == data_list@.len(),
        forall|i: int|
            0 <= i < data_list@.len() ==> #[trigger] r@[i] == (WritePosition {
                segment_id,
                offset: (start + batch_len(data_list@.map_values(|d: &[u8]| d@).take(i)) + 12) as u64,
                length: data_list@[i]@.len() as u64,
            }),
{
    let ghost ds = data_list@.map_values(|d: &[u8]| d@);
    let mut positions: Vec<WritePosition> = Vec::new();
    let mut pos: u64 = start;
    let mut k: usize = 0;
    proof {
        lemma_batch_len_prefix(ds, 0);
        assert(ds.take(0) =~= Seq::<Seq<u8>>::empty());
    }
    while k < data_list.len()
        invariant
            k <= data_list@.len(),
            ds == data_list@.map_values(|d: &[u8]| d@),
            start + batch_len(ds) <= usize::MAX,
            pos == start + batch_len(ds.take(k as int)),
            positions@.len() == k,
            forall|m: int|
                0 <= m < k ==> #[trigger] positions@[m] == (WritePosition {
                    segment_id,
                    offset: (start + batch_len(ds.take(m)) + 12) as u64,
                    length: ds[m].len() as u64,
                }),
        decreases data_list@.len() - k,
    {
        proof {
            lemma_batch_len_prefix(ds, k + 1);
            assert(ds.take(k + 1).drop_last() =~= ds.take(k as int));
            assert(ds.take(k + 1).last() == ds[k as int]);
        }
        let len = data_list[k].len() as u64;
        positions.push(WritePosition { segment_id, offset: pos + 12, length: len });
        pos = pos + 12 + len;
        k = k + 1;
    }
    positions
}

/// The bytes of the records holding each of `ds`, one after the other.
pub open spec fn batch_bytes(ds: Seq<Seq<u8>>) -> Seq<u8>
    decreases ds.len(),
{
    if ds.len() == 0 {
        Seq::empty()
    } else {
        batch_bytes(ds.drop_last()) + record_bytes(ds.last())
    }
}

/// How many bytes the records holding each of `ds` take.
pub open spec fn batch_len(ds: Seq<Seq<u8>>) -> nat
    decreases ds.len(),
{
    if ds.len() == 0 {
        0
    } else {
        batch_len(ds.drop_last()) + 12 + ds.last().len()
    }
}

proof fn lemma_batch_len_prefix(ds: Seq<Seq<u8>>, k: int)
    requires
        0 <= k <= ds.len(),
    ensures
        batch_len(ds.take(k)) <= batch_len(ds),
        batch_bytes(ds.take(k)).len() == batch_len(ds.take(k)),
    decreases ds.len() - k,
{
    lemma_batch_bytes_len(ds.take(k));
    if k < ds.len() {
        lemma_batch_len_prefix(ds, k + 1);
        assert(ds.take(k + 1).drop_last() =~= ds.take(k));
    } else {
        assert(ds.take(k) =~= ds);
    }
}

/// The bytes of a batch are as many as `batch_len` counts.
pub proof fn lemma_batch_bytes_len(ds: Seq<Seq<u8>>)
    ensures
        batch_bytes(ds).len() == batch_len(ds),
    decreases ds.len(),
{
    if ds.len() > 0 {
        lemma_batch_bytes_len(ds.drop_last());
    }
}

/// One more record found where the records found so far end extends them.
pub proof fn lemma_records_push(c: Seq<u8>, offset: int, records: Seq<Seq<u8>>, d: Seq<u8>)
    requires
        records_from(c, offset, records),
        record_at(c, records_end(offset, records)) == Some(d),
        0 < d.len() <= MAX_RECORD_SIZE,
    ensures
        records_from(c, offset, records.push(d)),
        records_end(offset, records.push(d)) == records_end(offset, records) + 12 + d.len(),
    decreases records.len(),
{
    if records.len() > 0 {
        let next = offset + 12 + records[0].len();
        assert(records.push(d)[0] == records[0]);
        assert(records.push(d).drop_first() =~= records.drop_first().push(d));
        assert(records_end(offset, records) == records_end(next, records.drop_first()));
        lemma_records_push(c, next, records.drop_first(), d);
        assert(records_end(offset, records.push(d)) == records_end(next, records.drop_first().push(d)));
    } else {
        let e = Seq::<Seq<u8>>::empty();
        assert(records.push(d)[0] == d);
        assert(records.push(d).drop_first() =~= e);
        assert(records_from(c, offset + 12 + d.len(), e));
        assert(records_end(offset + 12 + d.len(), e) == offset + 12 + d.len());
        assert(records_end(offset, records) == offset);
    }
}

/// The bytes of a batch are those of its first `i` items followed by those
/// of the rest.
pub proof fn lemma_batch_bytes_split(ds: Seq<Seq<u8>>, i: int)
    requires
        0 <= i <= ds.len(),
    ensures
        batch_bytes(ds) == batch_bytes(ds.take(i)) + batch_bytes(ds.skip(i)),
    decreases ds.len(),
{
    if i == ds.len() {
        assert(ds.take(i) =~= ds);
        assert(ds.skip(i) =~= Seq::<Seq<u8>>::empty());
        assert(batch_bytes(ds) + Seq::<u8>::empty() =~= batch_bytes(ds));
    } else {
        let dl = ds.drop_last();
        lemma_batch_bytes_split(dl, i);
        assert(ds.take(i) =~= dl.take(i));
        assert(ds.skip(i).drop_last() =~= dl.skip(i));
        assert(ds.skip(i).last() == ds.last());
        assert(batch_bytes(ds.take(i)) + batch_bytes(dl.skip(i)) + record_bytes(ds.last()) =~= batch_bytes(
            ds.take(i),
        ) + (batch_bytes(dl.skip(i)) + record_bytes(ds.last())));
    }
}

/// The bytes of the items from `i` on start with the record of item `i`.
proof fn lemma_batch_bytes_from(ds: Seq<Seq<u8>>, i: int)
    requires
        0 <= i < ds.len(),
    ensures
        batch_bytes(ds.skip(i)) == record_bytes(ds[i]) + batch_bytes(ds.skip(i + 1)),
{
    let t = ds.skip(i);
    lemma_batch_bytes_split(t, 1);
    let e = Seq::<Seq<u8>>::empty();
    assert(t.take(1).drop_last() =~= e);
    assert(t.take(1).last() == ds[i]);
    assert(batch_bytes(e) == Seq::<u8>::empty());
    assert(batch_bytes(t.take(1)) == batch_bytes(e) + record_bytes(ds[i]));
    assert(batch_bytes(t.take(1)) =~= record_bytes(ds[i]));
    assert(t.skip(1) =~= ds.skip(i + 1));
}

/// In the bytes of a batch, the record of item `i` starts where the records
/// of the items before it end, and holds item `i`.
pub proof fn lemma_batch_record_at(ds: Seq<Seq<u8>>, i: int)
    requires
        0 <= i < ds.len(),
        ds[i].len() <= u32::MAX,
    ensures
        record_at(batch_bytes(ds), batch_len(ds.take(i)) as int) == Some(ds[i]),
{
    lemma_batch_bytes_split(ds, i);
    lemma_batch_bytes_from(ds, i);
    lemma_batch_bytes_len(ds.take(i));
    let prefix = batch_bytes(ds.take(i));
    let suffix = batch_bytes(ds.skip(i + 1));
    assert(batch_bytes(ds) =~= prefix + record_bytes(ds[i]) + suffix);
    lemma_record_roundtrip(prefix, ds[i], suffix);
}

/// What `append_batch` writes, `read_batch` reads back: after the bytes
/// `c`, the records of a batch of non-empty items of at most
/// `MAX_RECORD_SIZE` bytes lie one after the other and end where the batch
/// ends.
#[verifier::spinoff_prover]
#[verifier::rlimit(30)]
pub proof fn lemma_batch_reads_back(c: Seq<u8>, ds: Seq<Seq<u8>>)
    requires
        forall|k: int| 0 <= k < ds.len() ==> 0 < (#[trigger] ds[k]).len() <= MAX_RECORD_SIZE,
    ensures
        records_from(c + batch_bytes(ds), c.len() as int, ds),
        records_end(c.len() as int, ds) == c.len() + batch_len(ds),
    decreases ds.len(),
{
    if ds.len() == 0 {
        assert(batch_bytes(ds) == Seq::<u8>::empty());
        assert(c + batch_bytes(ds) =~= c);
    } else {
        let d0 = ds[0];
        let rest = ds.drop_first();
        let c2 = c + record_bytes(d0);
        let all = c + batch_bytes(ds);
        assert(all == c2 + batch_bytes(rest)) by {
            lemma_batch_bytes_first(ds);
            assert(c + (record_bytes(d0) + batch_bytes(rest)) =~= c2 + batch_bytes(rest));
        }
        assert forall|k: int| 0 <= k < rest.len() implies 0 < (#[trigger] rest[k]).len() <= MAX_RECORD_SIZE by {
            assert(rest[k] == ds[k + 1]);
        }
        lemma_batch_reads_back(c2, rest);
        assert(record_at(all, c.len() as int) == Some(d0)) by {
            lemma_record_roundtrip(c, d0, batch_bytes(rest));
            assert(c + record_bytes(d0) + batch_bytes(rest) =~= c2 + batch_bytes(rest));
        }
        assert(c2.len() == c.len() + 12 + d0.len());
        assert(0 < ds[0].len() <= MAX_RECORD_SIZE);
        assert(records_from(all, c2.len() as int, rest));
        assert(records_from(all, c.len() as int, ds));
        lemma_batch_len_first(ds);
        assert(records_end(c.len() as int, ds) == records_end(c2.len() as int, rest));
    }
}

proof fn lemma_batch_bytes_first(ds: Seq<Seq<u8>>)
    requires
        ds.len() > 0,
    ensures
        batch_bytes(ds) == record_bytes(ds[0]) + batch_bytes(ds.drop_first()),
{
    lemma_batch_bytes_split(ds, 1);
    let e = Seq::<Seq<u8>>::empty();
    assert(ds.take(1).drop_last() =~= e);
    assert(ds.take(1).last() == ds[0]);
    assert(batch_bytes(e) == Seq::<u8>::empty());
    assert(batch_bytes(ds.take(1)) == batch_bytes(e) + record_bytes(ds[0]));
    assert(batch_bytes(ds.take(1)) =~= record_bytes(ds[0]));
    assert(ds.skip(1) =~= ds.drop_first());
}

proof fn lemma_batch_len_first(ds: Seq<Seq<u8>>)
    requires
        ds.len() > 0,
    ensures
        batch_len(ds) == 12 + ds[0].len() + batch_len(ds.drop_first()),
    decreases ds.len(),
{
    if ds.len() > 1 {
        lemma_batch_len_first(ds.drop_last());
        assert(ds.drop_last().drop_first() =~= ds.drop_first().drop_last());
        assert(ds.drop_first().last() == ds.last());
    } else {
        assert(ds.drop_first() =~= Seq::<Seq<u8>>::empty());
        assert(ds.drop_last() =~= Seq::<Seq<u8>>::empty());
    }
}

/// What `append` writes, `read_next` reads back: where a record holding
/// between 1 and `MAX_RECORD_SIZE` bytes was appended after the bytes `c`,
/// whatever bytes follow it, the one outcome of reading the record there is
/// its data.
pub proof fn lemma_appended_record_reads_back(c: Seq<u8>, d: Seq<u8>, suffix: Seq<u8>, r: Result<Seq<u8>, Error>)
    requires
        0 < d.len() <= MAX_RECORD_SIZE,
        record_read_outcome(c + record_bytes(d) + suffix, c.len() as int, r),
    ensures
        r == Ok::<Seq<u8>, Error>(d),
{
    lemma_record_roundtrip(c, d, suffix);
}

/// The header of an appended record passes `check_record_header`'s checks
/// on magic and length, with the data's checksum.
pub proof fn lemma_appended_header(c: Seq<u8>, d: Seq<u8>)
    requires
        0 < d.len() <= MAX_RECORD_SIZE,
    ensures
        ({
            let h = (c + record_bytes(d)).subrange(c.len() as int, c.len() + 12 as int);
            &&& h.len() == 12
            &&& from_be32(h, 0) == MAGIC
            &&& from_be32(h, 4) == d.len()
            &&& from_be32(h, 8) == crc32_spec(d)
        }),
{
    let all = c + record_bytes(d);
    let h = all.subrange(c.len() as int, c.len() + 12 as int);
    lemma_record_roundtrip(c, d, Seq::empty());
    assert(all + Seq::<u8>::empty() =~= all);
    assert(from_be32(h, 0) == from_be32(all, c.len() as int));
    assert(from_be32(h, 4) == from_be32(all, c.len() + 4 as int));
    assert(from_be32(h, 8) == from_be32(all, c.len() + 8 as int));
}

} // verus!
