//! A sequential reader of the records of a log, its configuration and its
//! position. The reader reads from the segment it stands in; finding and
//! opening that segment's store is left to the caller.
use crate::error::Error;
use crate::segment::record_at;
use crate::storage::log_segment::{
    batch_read_outcome, batch_stopped, record_read_outcome, records_end, records_from, LogSegment, MAX_RECORD_SIZE,
    SEGMENT_HEADER_SIZE,
};
use crate::storage::segment_manager::{SegmentConfig, DEFAULT_MAX_SEGMENT_SIZE};
use crate::storage::{read_range, Storage};
use vstd::prelude::*;

verus! {

/// Where a reader stands: a segment and an offset within it.
#[derive(Debug, Clone, Copy, PartialEq, Eq, Structural)]
pub struct ReadPosition {
    /// The segment's id.
    pub segment_id: u64,
    /// The offset within the segment.
    pub offset: u64,
}

/// How a reader reads.
#[derive(Debug, Clone)]
pub struct LogReaderConfig {
    /// The segments to read.
    pub segment_config: SegmentConfig,
    /// Records read at most per batch.
    pub batch_size: usize,
    /// Size of the read buffer.
    pub read_buffer_size: usize,
}

impl Default for LogReaderConfig {
    /// Default segments, batches of 100 records and a 64 KiB buffer.
    fn default() -> (r: Self)
        ensures
            r.segment_config.dir@ == "."@,
            r.segment_config.prefix@ == "segment"@,
            r.segment_config.extension@ == "wal"@,
            r.segment_config.max_segment_size == DEFAULT_MAX_SEGMENT_SIZE,
            r.batch_size == 100,
            r.read_buffer_size == 65536,
    {
        LogReaderConfig { segment_config: SegmentConfig::default(), batch_size: 100, read_buffer_size: 65536 }
    }
}

impl LogReaderConfig {
    /// This configuration reading the default segments of `dir`.
    pub fn with_dir(self, dir: &str) -> (r: Self)
        ensures
            r.segment_config.dir@ == dir@,
            r.segment_config.prefix@ == "segment"@,
            r.segment_config.extension@ == "wal"@,
            r.segment_config.max_segment_size == DEFAULT_MAX_SEGMENT_SIZE,
            r.batch_size == self.batch_size,
            r.read_buffer_size == self.read_buffer_size,
    {
        let mut c = self;
        c.segment_config = SegmentConfig::new(dir);
        c
    }

    /// This configuration reading at most `size` records per batch.
    pub fn with_batch_size(self, size: usize) -> (r: Self)
        ensures
            r.segment_config == self.segment_config,
            r.batch_size == size,
            r.read_buffer_size == self.read_buffer_size,
    {
        let mut c = self;
        c.batch_size = size;
        c
    }
}

/// The data read, or the error.
pub open spec fn vec_data(r: Result<Vec<u8>, Error>) -> Result<Seq<u8>, Error> {
    match r {
        Ok(d) => Ok(d@),
        Err(e) => Err(e),
    }
}

/// Reads records one after the other, keeping its position.
pub struct LogReader {
    config: LogReaderConfig,
    position: ReadPosition,
}

impl LogReader {
    /// The configuration.
    pub closed spec fn spec_config(&self) -> LogReaderConfig {
        self.config
    }

    /// The position.
    pub closed spec fn spec_position(&self) -> ReadPosition {
        self.position
    }

    /// A reader standing at the first record of segment 1, just after the
    /// segment header.
    pub fn new(config: LogReaderConfig) -> (r: Self)
        ensures
            r.spec_config() == config,
            r.spec_position() == (ReadPosition { segment_id: 1, offset: SEGMENT_HEADER_SIZE }),
    {
        LogReader { config, position: ReadPosition { segment_id: 1, offset: SEGMENT_HEADER_SIZE } }
    }

    /// The configuration.
    pub fn config(&self) -> (r: &LogReaderConfig)
        ensures
            *r == self.spec_config(),
    {
        &self.config
    }

    /// The position.
    pub fn position(&self) -> (r: ReadPosition)
        ensures
            r == self.spec_position(),
    {
        self.position
    }

    /// Moves to `offset` of segment `segment_id`.
    pub fn seek(&mut self, segment_id: u64, offset: u64)
        ensures
            final(self).spec_position() == (ReadPosition { segment_id, offset }),
            final(self).spec_config() == old(self).spec_config(),
    {
        self.position = ReadPosition { segment_id, offset };
    }

    /// Moves to the first record of segment 1.
    pub fn seek_to_start(&mut self)
        ensures
            final(self).spec_position() == (ReadPosition { segment_id: 1, offset: SEGMENT_HEADER_SIZE }),
            final(self).spec_config() == old(self).spec_config(),
    {
        self.seek(1, SEGMENT_HEADER_SIZE);
    }

    /// Reads at most `length` bytes at `offset` of `segment`.
    pub fn read_at<S: Storage>(&self, segment: &mut LogSegment<S>, offset: u64, length: u64) -> (r: Result<Vec<u8>, Error>)
        ensures
            final(segment).contents() == old(segment).contents(),
            final(segment).reliable() == old(segment).reliable(),
            old(segment).reliable() ==> r is Ok,
            r matches Ok(d) ==> d@ == read_range(old(segment).contents(), offset as int, length as int),
    {
        segment.read(offset, length)
    }

    /// Reads the record at the position from `segment`, the segment the
    /// reader stands in, and moves past it; on an error the position stays.
    pub fn read_next<S: Storage>(&mut self, segment: &mut LogSegment<S>) -> (r: Result<Vec<u8>, Error>)
        requires
            old(self).spec_position().offset + 12 + MAX_RECORD_SIZE <= usize::MAX,
        ensures
            final(segment).contents() == old(segment).contents(),
            final(self).spec_config() == old(self).spec_config(),
            final(self).spec_position().segment_id == old(self).spec_position().segment_id,
            final(segment).reliable() == old(segment).reliable(),
            old(segment).reliable() ==> record_read_outcome(
                old(segment).contents(),
                old(self).spec_position().offset as int,
                vec_data(r),
            ),
            r is Err ==> final(self).spec_position() == old(self).spec_position(),
            r matches Ok(d) ==> record_at(old(segment).contents(), old(self).spec_position().offset as int)
                == Some(d@) && 0 < d@.len() <= MAX_RECORD_SIZE && final(self).spec_position().offset
                == old(self).spec_position().offset + 12 + d@.len(),
    {
        let result = segment.read_next(self.position.offset);
        match result {
            Ok(next) => {
                self.position.offset = next.next_offset;
                Ok(next.data)
            },
            Err(e) => Err(e),
        }
    }

    /// Reads records from the position, at most `max_count` and at most the
    /// configured batch size, stopping early at the end of the segment; any
    /// other error is returned.
    pub fn read_batch<S: Storage>(&mut self, segment: &mut LogSegment<S>, max_count: usize) -> (r: Result<Vec<Vec<u8>>, Error>)
        requires
            old(self).spec_position().offset + 12 + MAX_RECORD_SIZE <= usize::MAX,
        ensures
            final(segment).contents() == old(segment).contents(),
            final(self).spec_config() == old(self).spec_config(),
            final(segment).reliable() == old(segment).reliable(),
            old(segment).reliable() ==> batch_read_outcome(
                old(segment).contents(),
                old(self).spec_position().offset as int,
                if max_count < old(self).spec_config().batch_size {
                    max_count as int
                } else {
                    old(self).spec_config().batch_size as int
                },
                match r {
                    Ok(v) => Ok(v@.map_values(|x: Vec<u8>| x@)),
                    Err(e) => Err(e),
                },
            ),
            r matches Ok(v) ==> {
                let ds = v@.map_values(|x: Vec<u8>| x@);
                &&& v@.len() <= max_count
                &&& v@.len() <= old(self).spec_config().batch_size
                &&& records_from(old(segment).contents(), old(self).spec_position().offset as int, ds)
                &&& final(self).spec_position().offset == records_end(
                    old(self).spec_position().offset as int,
                    ds,
                )
            },
    {
        let count = if max_count < self.config.batch_size {
            max_count
        } else {
            self.config.batch_size
        };
        let mut results: Vec<Vec<u8>> = Vec::new();
        let ghost c = segment.contents();
        let ghost start = self.position.offset;
        let mut n: usize = 0;
        while n < count
            invariant
                n <= count,
                count <= max_count,
                count <= self.config.batch_size,
                results@.len() == n,
                segment.contents() == c,
                c == old(segment).contents(),
                self.config == old(self).config,
                start == old(self).position.offset,
                start <= self.position.offset,
                start + 12 + MAX_RECORD_SIZE <= usize::MAX,
                records_from(c, start as int, results@.map_values(|x: Vec<u8>| x@)),
                self.position.offset == records_end(start as int, results@.map_values(|x: Vec<u8>| x@)),
                segment.reliable() == old(segment).reliable(),
            ensures
                n <= count,
                results@.len() == n,
                segment.contents() == c,
                self.config == old(self).config,
                segment.reliable() == old(segment).reliable(),
                records_from(c, start as int, results@.map_values(|x: Vec<u8>| x@)),
                self.position.offset == records_end(start as int, results@.map_values(|x: Vec<u8>| x@)),
                batch_stopped(c, n as int, count as int, self.position.offset as int, segment.reliable()),
            decreases count - n,
        {
            if self.position.offset > usize::MAX as u64 - 12 - MAX_RECORD_SIZE {
                break;
            }
            let ghost before = results@.map_values(|x: Vec<u8>| x@);
            match self.read_next(segment) {
                Ok(data) => {
                    let ghost d = data@;
                    proof {
                        crate::storage::log_segment::lemma_records_push(c, start as int, before, d);
                    }
                    results.push(data);
                    assert(results@.map_values(|x: Vec<u8>| x@) =~= before.push(d));
                },
                Err(Error::Eof) => {
                    break;
                },
                Err(e) => {
                    proof {
                        if old(segment).reliable() {
                            assert(records_from(c, start as int, before) && record_read_outcome(
                                c,
                                records_end(start as int, before),
                                Err(e),
                            ));
                        }
                    }
                    return Err(e);
                },
            }
            n = n + 1;
        }
        Ok(results)
    }

    /// Reads at most `length` raw bytes at the position from `segment` and
    /// moves past them.
    pub fn read_raw<S: Storage>(&mut self, segment: &mut LogSegment<S>, length: usize) -> (r: Result<Vec<u8>, Error>)
        requires
            old(self).spec_position().offset + length <= u64::MAX,
        ensures
            final(segment).contents() == old(segment).contents(),
            final(self).spec_config() == old(self).spec_config(),
            final(segment).reliable() == old(segment).reliable(),
            old(segment).reliable() ==> r is Ok,
            r is Err ==> final(self).spec_position() == old(self).spec_position(),
            r matches Ok(d) ==> d@ == read_range(
                old(segment).contents(),
                old(self).spec_position().offset as int,
                length as int,
            ) && final(self).spec_position() == (ReadPosition {
                offset: (old(self).spec_position().offset + d@.len()) as u64,
                ..old(self).spec_position()
            }),
    {
        let result = segment.read_raw(self.position.offset, length);
        match result {
            Ok(raw) => {
                self.position.offset = raw.end_offset;
                Ok(raw.data)
            },
            Err(e) => Err(e),
        }
    }
}

} // verus!
