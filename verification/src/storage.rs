//! Storage: the byte-store interface, an in-memory store, checksums,
//! segment bookkeeping and the configuration of readers and writers.
use crate::error::Error;
use vstd::prelude::*;
use vstd::wrapping::u64_specs::wrapping_add;

pub mod checksum;
pub mod log_reader;
pub mod log_segment;
pub mod log_writer;
pub mod memory_storage;
pub mod segment_manager;
pub mod wal_manager;

verus! {

/// Counters kept by a store.
#[derive(Debug, Clone, Copy, PartialEq, Eq, Structural)]
pub struct StorageStats {
    /// Current size in bytes.
    pub size: u64,
    /// Bytes written so far.
    pub bytes_written: u64,
    /// Bytes read so far.
    pub bytes_read: u64,
    /// Write operations so far.
    pub write_ops: u64,
    /// Read operations so far.
    pub read_ops: u64,
}

impl Default for StorageStats {
    fn default() -> (r: Self)
        ensures
            r == (StorageStats { size: 0, bytes_written: 0, bytes_read: 0, write_ops: 0, read_ops: 0 }),
    {
        StorageStats { size: 0, bytes_written: 0, bytes_read: 0, write_ops: 0, read_ops: 0 }
    }
}

impl StorageStats {
    /// Counts a read of `n` bytes.
    pub fn count_read(&mut self, n: u64)
        ensures
            *final(self) == (StorageStats {
                bytes_read: wrapping_add(old(self).bytes_read, n),
                read_ops: wrapping_add(old(self).read_ops, 1),
                ..*old(self)
            }),
    {
        self.bytes_read = self.bytes_read.wrapping_add(n);
        self.read_ops = self.read_ops.wrapping_add(1);
    }

    /// Counts a write of `n` bytes after which the store holds `size`
    /// bytes.
    pub fn count_write(&mut self, n: u64, size: u64)
        ensures
            *final(self) == (StorageStats {
                bytes_written: wrapping_add(old(self).bytes_written, n),
                write_ops: wrapping_add(old(self).write_ops, 1),
                size,
                ..*old(self)
            }),
    {
        self.bytes_written = self.bytes_written.wrapping_add(n);
        self.write_ops = self.write_ops.wrapping_add(1);
        self.size = size;
    }
}

/// Where a read of at most `length` bytes at `offset` of a store holding
/// `size` bytes starts and ends: nothing (start equal to end) at or past
/// the end, else up to `offset + length` or the end, whichever comes first.
pub fn read_span(size: u64, offset: u64, length: u64) -> (r: (u64, u64))
    ensures
        offset >= size ==> r.0 == r.1,
        offset < size ==> r.0 == offset && r.1 == (if offset + length < size { offset + length } else { size as int }),
        forall|c: Seq<u8>| c.len() == size && offset < size ==> read_range(c, offset as int, length as int) == c.subrange(r.0 as int, r.1 as int),
{
    if offset >= size {
        (offset, offset)
    } else if length < size - offset {
        (offset, offset + length)
    } else {
        (offset, size)
    }
}

/// A byte range in a store.
#[derive(Debug, Clone, Copy, PartialEq, Eq, Structural)]
pub struct Location {
    /// Where the range starts.
    pub offset: u64,
    /// How many bytes it has.
    pub length: u64,
}

impl Location {
    /// The range of `length` bytes at `offset`.
    pub fn new(offset: u64, length: u64) -> (r: Self)
        ensures
            r == (Location { offset, length }),
    {
        Location { offset, length }
    }
}

/// The bytes of `c` from `offset`, at most `length` of them; none when
/// `offset` is at or past the end.
pub open spec fn read_range(c: Seq<u8>, offset: int, length: int) -> Seq<u8> {
    if offset >= c.len() {
        Seq::empty()
    } else if offset + length < c.len() {
        c.subrange(offset, offset + length)
    } else {
        c.subrange(offset, c.len() as int)
    }
}

/// `c` with `data` written at `offset`, zero-filled up to `offset` if it
/// was shorter.
pub open spec fn write_at(c: Seq<u8>, offset: int, data: Seq<u8>) -> Seq<u8> {
    let n = if c.len() < offset + data.len() { offset + data.len() } else { c.len() as int };
    Seq::new(
        n as nat,
        |i: int|
            if offset <= i < offset + data.len() {
                data[i - offset]
            } else if i < c.len() {
                c[i]
            } else {
                0u8
            },
    )
}

/// A byte store that the log's segments are kept in.
pub trait Storage {
    /// The bytes held.
    spec fn contents(&self) -> Seq<u8>;

    /// Whether every operation of the store succeeds on the inputs its
    /// `requires` admits: true of a store held in memory, not of one that
    /// does I/O.
    spec fn reliable(&self) -> bool;

    /// Reads at most `length` bytes at `offset`; fewer at the end of the
    /// data.
    fn read(&mut self, offset: u64, length: u64) -> (r: Result<Vec<u8>, Error>)
        ensures
            final(self).contents() == old(self).contents(),
            final(self).reliable() == old(self).reliable(),
            old(self).reliable() ==> r is Ok,
            r matches Ok(d) ==> d@ == read_range(old(self).contents(), offset as int, length as int),
    ;

    /// Writes `data` at `offset`, extending the store if needed.
    fn write(&mut self, offset: u64, data: &[u8]) -> (r: Result<(), Error>)
        requires
            offset + data@.len() <= usize::MAX,
        ensures
            final(self).reliable() == old(self).reliable(),
            old(self).reliable() ==> r is Ok,
            r is Ok ==> final(self).contents() == write_at(old(self).contents(), offset as int, data@),
    ;

    /// Appends `data` and returns where it starts.
    fn append(&mut self, data: &[u8]) -> (r: Result<u64, Error>)
        requires
            old(self).contents().len() + data@.len() <= usize::MAX,
        ensures
            final(self).reliable() == old(self).reliable(),
            old(self).reliable() ==> r is Ok,
            r matches Ok(o) ==> o == old(self).contents().len() && final(self).contents() == old(
                self,
            ).contents() + data@,
    ;

    /// Reads every range of `locations`, in order.
    fn read_batch(&mut self, locations: &[Location]) -> (r: Result<Vec<Vec<u8>>, Error>)
        ensures
            final(self).contents() == old(self).contents(),
            final(self).reliable() == old(self).reliable(),
            old(self).reliable() ==> r is Ok,
            r matches Ok(v) ==> v@.len() == locations@.len(),
    ;

    /// Writes each `data_list[i]` at `offsets[i]`; refuses lists of
    /// different lengths.
    fn write_batch(&mut self, offsets: &[u64], data_list: &[&[u8]]) -> (r: Result<(), Error>)
        requires
            offsets@.len() == data_list@.len() ==> forall|i: int|
                0 <= i < offsets@.len() ==> (#[trigger] offsets@[i]) + data_list@[i]@.len()
                    <= usize::MAX,
        ensures
            final(self).reliable() == old(self).reliable(),
            old(self).reliable() && offsets@.len() == data_list@.len() ==> r is Ok,
            offsets@.len() != data_list@.len() ==> r is Err && final(self).contents() == old(
                self,
            ).contents(),
    ;

    /// Makes the written bytes durable.
    fn sync(&mut self) -> (r: Result<(), Error>)
        ensures
            final(self).contents() == old(self).contents(),
            final(self).reliable() == old(self).reliable(),
            old(self).reliable() ==> r is Ok,
    ;

    /// The number of bytes held.
    fn size(&self) -> (r: Result<u64, Error>)
        ensures
            self.reliable() ==> r is Ok,
            r matches Ok(s) ==> s == self.contents().len(),
    ;

    /// Cuts the store down to `length` bytes.
    fn truncate(&mut self, length: u64) -> (r: Result<(), Error>)
        ensures
            final(self).reliable() == old(self).reliable(),
            old(self).reliable() ==> r is Ok,
            r is Ok && length <= old(self).contents().len() ==> final(self).contents() == old(
                self,
            ).contents().take(length as int),
    ;

    /// The store's counters.
    fn stats(&self) -> StorageStats;

    /// Releases the store, making its bytes durable.
    fn close(&mut self) -> (r: Result<(), Error>)
        ensures
            final(self).contents() == old(self).contents(),
            final(self).reliable() == old(self).reliable(),
            old(self).reliable() ==> r is Ok,
    ;
}

/// A new, empty in-memory store.
pub fn create_memory_storage() -> (r: memory_storage::MemoryStorage)
    ensures
        r.contents() == Seq::<u8>::empty(),
        r.reliable(),
        r.spec_stats() == (StorageStats { size: 0, bytes_written: 0, bytes_read: 0, write_ops: 0, read_ops: 0 }),
{
    memory_storage::MemoryStorage::new()
}

/// Bytes written at an offset read back from that offset.
pub proof fn lemma_write_then_read(c: Seq<u8>, offset: int, data: Seq<u8>)
    requires
        0 <= offset,
    ensures
        read_range(write_at(c, offset, data), offset, data.len() as int) == data,
{
    let w = write_at(c, offset, data);
    if data.len() > 0 {
        assert(read_range(w, offset, data.len() as int) =~= data);
    } else {
        assert(read_range(w, offset, 0) =~= data);
    }
}

/// Writing leaves every byte outside the written range as it was.
pub proof fn lemma_write_keeps_other_bytes(c: Seq<u8>, offset: int, data: Seq<u8>, i: int)
    requires
        0 <= offset,
        0 <= i < c.len(),
        !(offset <= i < offset + data.len()),
    ensures
        write_at(c, offset, data)[i] == c[i],
{
}

/// Appended bytes read back from where the append put them, and the bytes
/// before stay as they were.
pub proof fn lemma_append_then_read(c: Seq<u8>, data: Seq<u8>)
    ensures
        read_range(c + data, c.len() as int, data.len() as int) == data,
        c.len() > 0 ==> read_range(c + data, 0, c.len() as int) == c,
{
    if data.len() > 0 {
        assert(read_range(c + data, c.len() as int, data.len() as int) =~= data);
    } else {
        assert(read_range(c + data, c.len() as int, 0) =~= data);
    }
    if c.len() > 0 {
        assert(read_range(c + data, 0, c.len() as int) =~= c);
    }
}

} // verus!
