//! A writer of records into one segment, and its configuration. Deciding
//! when to move on to another segment is left to the coordinators.
use crate::error::Error;
use crate::segment::record_bytes;
use crate::storage::log_segment::{batch_bytes, batch_len, LogSegment, WritePosition};
use crate::storage::segment_manager::{SegmentConfig, DEFAULT_MAX_SEGMENT_SIZE};
use crate::storage::Storage;
use vstd::prelude::*;

verus! {

/// How a writer writes.
#[derive(Debug, Clone)]
pub struct LogWriterConfig {
    /// The segments to write.
    pub segment_config: SegmentConfig,
    /// Size of the write buffer.
    pub buffer_size: usize,
}

impl Default for LogWriterConfig {
    /// Default segments and a 64 KiB buffer.
    fn default() -> (r: Self)
        ensures
            r.segment_config.dir@ == "."@,
            r.segment_config.prefix@ == "segment"@,
            r.segment_config.extension@ == "wal"@,
            r.segment_config.max_segment_size == DEFAULT_MAX_SEGMENT_SIZE,
            r.buffer_size == 65536,
    {
        LogWriterConfig { segment_config: SegmentConfig::default(), buffer_size: 65536 }
    }
}

impl LogWriterConfig {
    /// This configuration writing the default segments of `dir`.
    pub fn with_dir(self, dir: &str) -> (r: Self)
        ensures
            r.segment_config.dir@ == dir@,
            r.segment_config.prefix@ == "segment"@,
            r.segment_config.extension@ == "wal"@,
            r.segment_config.max_segment_size == DEFAULT_MAX_SEGMENT_SIZE,
            r.buffer_size == self.buffer_size,
    {
        let mut c = self;
        c.segment_config = SegmentConfig::new(dir);
        c
    }

    /// This configuration with segments of at most `size` bytes.
    pub fn with_max_segment_size(self, size: u64) -> (r: Self)
        ensures
            r.segment_config.dir == self.segment_config.dir,
            r.segment_config.prefix == self.segment_config.prefix,
            r.segment_config.extension == self.segment_config.extension,
            r.segment_config.max_segment_size == size,
            r.buffer_size == self.buffer_size,
    {
        let mut c = self;
        c.segment_config = c.segment_config.with_max_size(size);
        c
    }
}

/// Writes records at the end of one segment kept in the store `S`.
pub struct LogWriter<S: Storage> {
    segment: LogSegment<S>,
}

impl<S: Storage> LogWriter<S> {
    /// The segment written.
    pub closed spec fn spec_segment(&self) -> LogSegment<S> {
        self.segment
    }

    /// The bytes of the segment.
    pub open spec fn contents(&self) -> Seq<u8> {
        self.spec_segment().contents()
    }

    /// Whether the store's every operation succeeds.
    pub open spec fn reliable(&self) -> bool {
        self.spec_segment().reliable()
    }

    /// The segment's id.
    pub open spec fn spec_segment_id(&self) -> u64 {
        self.spec_segment().spec_segment_id()
    }

    /// A writer of segment `segment_id`, kept in `storage`.
    pub fn new(storage: S, segment_id: u64) -> (r: Self)
        ensures
            r.spec_segment().spec_storage() == storage,
            r.spec_segment_id() == segment_id,
    {
        LogWriter { segment: LogSegment::new(storage, segment_id) }
    }

    /// The store.
    pub fn storage(&self) -> (r: &S)
        ensures
            *r == self.spec_segment().spec_storage(),
    {
        self.segment.storage()
    }

    /// The segment's id.
    pub fn segment_id(&self) -> (r: u64)
        ensures
            r == self.spec_segment_id(),
    {
        self.segment.segment_id()
    }

    /// Appends the record holding `data` and returns where its data lies.
    pub fn write(&mut self, data: &[u8]) -> (r: Result<WritePosition, Error>)
        requires
            old(self).contents().len() + 12 + data@.len() <= usize::MAX,
        ensures
            final(self).spec_segment_id() == old(self).spec_segment_id(),
            final(self).reliable() == old(self).reliable(),
            old(self).reliable() ==> r is Ok,
            r matches Ok(p) ==> {
                &&& p == (WritePosition {
                    segment_id: old(self).spec_segment_id(),
                    offset: (old(self).contents().len() + 12) as u64,
                    length: data@.len() as u64,
                })
                &&& final(self).contents() == old(self).contents() + record_bytes(data@)
            },
    {
        self.segment.append(data)
    }

    /// Appends the records holding each of `data_list`, in order, with one
    /// write, and returns where each one's data lies.
    pub fn write_batch(&mut self, data_list: &[&[u8]]) -> (r: Result<Vec<WritePosition>, Error>)
        requires
            old(self).contents().len() + batch_len(data_list@.map_values(|d: &[u8]| d@)) <= usize::MAX,
        ensures
            final(self).spec_segment_id() == old(self).spec_segment_id(),
            final(self).reliable() == old(self).reliable(),
            old(self).reliable() ==> r is Ok,
            data_list@.len() == 0 ==> (r matches Ok(v) && v@.len() == 0),
            r matches Ok(v) ==> ({
                let ds = data_list@.map_values(|d: &[u8]| d@);
                &&& v@.len() == ds.len()
                &&& final(self).contents() == old(self).contents() + batch_bytes(ds)
                &&& forall|i: int|
                    0 <= i < ds.len() ==> #[trigger] v@[i] == (WritePosition {
                        segment_id: old(self).spec_segment_id(),
                        offset: (old(self).contents().len() + batch_len(ds.take(i)) + 12) as u64,
                        length: ds[i].len() as u64,
                    })
            }),
    {
        self.segment.append_batch(data_list)
    }

    /// The number of bytes of the segment.
    pub fn size(&self) -> (r: Result<u64, Error>)
        ensures
            self.reliable() ==> r is Ok,
            r matches Ok(s) ==> s == self.contents().len(),
    {
        self.segment.size()
    }

    /// Makes the written records durable.
    pub fn sync(&mut self) -> (r: Result<(), Error>)
        ensures
            final(self).contents() == old(self).contents(),
            final(self).spec_segment_id() == old(self).spec_segment_id(),
            final(self).reliable() == old(self).reliable(),
            old(self).reliable() ==> r is Ok,
    {
        self.segment.sync()
    }

    /// Makes the written records durable before the writer is dropped.
    pub fn close(&mut self) -> (r: Result<(), Error>)
        ensures
            final(self).contents() == old(self).contents(),
            final(self).spec_segment_id() == old(self).spec_segment_id(),
            final(self).reliable() == old(self).reliable(),
            old(self).reliable() ==> r is Ok,
    {
        self.sync()
    }
}

} // verus!
