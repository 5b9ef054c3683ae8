//! The decisions of the write and read coordinators: which records may be
//! written, and how a reader parses records out of a read-ahead buffer while
//! keeping apart the position it has consumed and the position it has read
//! ahead to.
//!
//! Records have the format of `crate::segment`. Segment files start with a
//! header of `SEGMENT_HEADER_SIZE` bytes, after which the first record
//! lies.
use crate::bytes::{from_be32, read_be32};
use crate::decimal::{decimal, decimal_string};
use crate::error::Error;
use crate::segment::MAGIC;
use crate::storage::log_reader::ReadPosition;
use crate::storage::log_segment::{batch_bytes, batch_len, lemma_batch_record_at};
use crate::storage::segment_manager::segment_path_spec;
use crate::wal::segment_coordinator::{rotation_due, SegmentCoordinator};
use crate::wal::sync_strategy::{write_decision, SyncStrategy};
use vstd::prelude::*;
use vstd::wrapping::u64_specs::wrapping_add;
use vstd::string::StringExecFns;

verus! {

/// The largest record that can be written: 64 MiB.
pub const MAX_RECORD_SIZE: u64 = 67108864u64;

/// The size of the header at the start of a segment file.
pub const SEGMENT_HEADER_SIZE: u64 = 16u64;

/// The most bytes of an unfinished record that a refill keeps: 4 KiB.
pub const MAX_PRESERVED_LEN: usize = 4096usize;

/// The outcome of a sync.
#[derive(Debug, Clone)]
pub struct SyncReport {
    /// How long the sync took, in milliseconds.
    pub duration_ms: u64,
    /// Whether it succeeded.
    pub success: bool,
    /// What went wrong, when it did not.
    pub error: Option<String>,
}

/// The message of the error refusing a record of `len` bytes.
pub open spec fn too_large_message(len: nat) -> Seq<char> {
    "Record too large: "@ + decimal(len) + " > "@ + decimal(MAX_RECORD_SIZE as nat)
}

/// Refuses a record longer than `MAX_RECORD_SIZE`.
pub fn check_record_size(len: usize) -> (r: Result<(), Error>)
    ensures
        len <= MAX_RECORD_SIZE ==> r is Ok,
        len > MAX_RECORD_SIZE ==> (r matches Err(Error::Generic(m)) && m@ == too_large_message(len as nat)),
{
    if len as u64 > MAX_RECORD_SIZE {
        let a = decimal_string(len as u64);
        let b = decimal_string(MAX_RECORD_SIZE);
        Err(Error::Generic(String::from_str("Record too large: ").concat(a.as_str()).concat(" > ").concat(b.as_str())))
    } else {
        Ok(())
    }
}

/// Refuses a batch holding a record longer than `MAX_RECORD_SIZE`, naming
/// the first such record.
pub fn check_batch_sizes(data_list: &[&[u8]]) -> (r: Result<(), Error>)
    ensures
        r is Ok <==> (forall|i: int| 0 <= i < data_list@.len() ==> (#[trigger] data_list@[i])@.len() <= MAX_RECORD_SIZE),
        r is Err ==> exists|i: int|
            0 <= i < data_list@.len() && (#[trigger] data_list@[i])@.len() > MAX_RECORD_SIZE && (forall|
                j: int,
            | 0 <= j < i ==> (#[trigger] data_list@[j])@.len() <= MAX_RECORD_SIZE) && (r matches Err(
                Error::Generic(m),
            ) && m@ == too_large_message(data_list@[i]@.len())),
{
    let mut i: usize = 0;
    while i < data_list.len()
        invariant
            i <= data_list@.len(),
            forall|j: int| 0 <= j < i ==> (#[trigger] data_list@[j])@.len() <= MAX_RECORD_SIZE,
        decreases data_list@.len() - i,
    {
        let r = check_record_size(data_list[i].len());
        if r.is_err() {
            return r;
        }
        i = i + 1;
    }
    Ok(())
}

/// The data of the record at `pos` in `d`, if a whole record with the right
/// magic lies there. Checksums are not checked here.
pub open spec fn buffered_record(d: Seq<u8>, pos: int) -> Option<Seq<u8>> {
    if pos + 8 <= d.len() && from_be32(d, pos) == MAGIC && pos + 12 + from_be32(d, pos + 4) <= d.len() {
        Some(d.subrange(pos + 12, pos + 12 + from_be32(d, pos + 4)))
    } else {
        None
    }
}

/// The bytes that a refill of a buffer holding `d`, of which the part from
/// `pos` is an unfinished record when `incomplete`, keeps before the new
/// bytes: at most the last `MAX_PRESERVED_LEN` bytes of that part.
pub open spec fn preserved(d: Seq<u8>, pos: int, incomplete: bool) -> Seq<u8> {
    if incomplete && pos < d.len() {
        let keep = if d.len() - pos < MAX_PRESERVED_LEN {
            d.len() - pos
        } else {
            MAX_PRESERVED_LEN as int
        };
        d.subrange(d.len() - keep, d.len() as int)
    } else {
        Seq::empty()
    }
}

/// A refill keeps only bytes not yet handed out: what it keeps is the end
/// of the part of the buffer from the read position, no longer than that
/// part; all of that part when it is an unfinished record of at most
/// `MAX_PRESERVED_LEN` bytes; nothing when no unfinished record is held.
pub proof fn lemma_refill_keeps_only_unread(d: Seq<u8>, pos: int, incomplete: bool)
    requires
        0 <= pos <= d.len(),
    ensures
        preserved(d, pos, incomplete).len() <= d.len() - pos,
        preserved(d, pos, incomplete).len() <= MAX_PRESERVED_LEN,
        preserved(d, pos, incomplete) == d.subrange(d.len() - preserved(d, pos, incomplete).len(), d.len() as int),
        incomplete && d.len() - pos <= MAX_PRESERVED_LEN ==> preserved(d, pos, incomplete) == d.subrange(pos, d.len() as int),
        !incomplete ==> preserved(d, pos, incomplete).len() == 0,
{
    if incomplete && pos < d.len() {
        let p = preserved(d, pos, incomplete);
        assert(p == d.subrange(d.len() - p.len(), d.len() as int));
    } else {
        assert(preserved(d, pos, incomplete) =~= d.subrange(d.len() as int, d.len() as int));
    }
}

/// Bytes read ahead of a reader, parsed one record at a time.
pub struct ReadAheadBuffer {
    data: Vec<u8>,
    pos: usize,
    exhausted: bool,
    has_incomplete: bool,
}

impl ReadAheadBuffer {
    /// The bytes held.
    pub closed spec fn spec_data(&self) -> Seq<u8> {
        self.data@
    }

    /// Where the next record starts.
    pub closed spec fn spec_pos(&self) -> int {
        self.pos as int
    }

    /// Whether the reader found the end of the data.
    pub closed spec fn spec_exhausted(&self) -> bool {
        self.exhausted
    }

    /// Whether what is left is an unfinished record.
    pub closed spec fn spec_incomplete(&self) -> bool {
        self.has_incomplete
    }

    /// The next record start lies within the bytes held.
    pub open spec fn wf(&self) -> bool {
        0 <= self.spec_pos() <= self.spec_data().len()
    }

    /// Whether a whole record may be parsed: bytes are left and they are not
    /// known to be an unfinished record.
    pub open spec fn has_data_spec(&self) -> bool {
        !self.spec_incomplete() && self.spec_pos() < self.spec_data().len()
    }

    /// An empty buffer.
    pub fn new(capacity: usize) -> (r: Self)
        ensures
            r.wf(),
            r.spec_data().len() == 0,
            r.spec_pos() == 0,
            !r.spec_exhausted(),
            !r.spec_incomplete(),
    {
        ReadAheadBuffer { data: Vec::with_capacity(capacity), pos: 0, exhausted: false, has_incomplete: false }
    }

    /// Empties the buffer.
    pub fn clear(&mut self)
        ensures
            final(self).wf(),
            final(self).spec_data().len() == 0,
            final(self).spec_pos() == 0,
            !final(self).spec_exhausted(),
            !final(self).spec_incomplete(),
    {
        self.data.clear();
        self.pos = 0;
        self.exhausted = false;
        self.has_incomplete = false;
    }

    /// Whether a whole record may be parsed.
    pub fn has_data(&self) -> (r: bool)
        ensures
            r == self.has_data_spec(),
    {
        if self.has_incomplete {
            return false;
        }
        self.pos < self.data.len()
    }

    /// Parses the next record, if a whole one is held; otherwise marks what
    /// is left as unfinished, so that the next refill keeps it.
    pub fn read(&mut self) -> (r: Option<Vec<u8>>)
        requires
            old(self).wf(),
        ensures
            final(self).wf(),
            final(self).spec_data() == old(self).spec_data(),
            final(self).spec_exhausted() == old(self).spec_exhausted(),
            !old(self).has_data_spec() ==> r is None && *final(self) == *old(self),
            old(self).has_data_spec() ==> ({
                let rec = buffered_record(old(self).spec_data(), old(self).spec_pos());
                &&& rec is None ==> r is None && final(self).spec_incomplete() && final(self).spec_pos()
                    == old(self).spec_pos()
                &&& rec matches Some(d) ==> (r matches Some(v) && v@ == d && final(self).spec_pos()
                    == old(self).spec_pos() + 12 + d.len() && !final(self).spec_incomplete())
            }),
    {
        if !self.has_data() {
            return None;
        }
        let left = self.data.len() - self.pos;
        if left < 4 {
            self.has_incomplete = true;
            return None;
        }
        let magic = read_be32(self.data.as_slice(), self.pos);
        if magic != MAGIC {
            self.has_incomplete = true;
            return None;
        }
        if left < 8 {
            self.has_incomplete = true;
            return None;
        }
        let length = read_be32(self.data.as_slice(), self.pos + 4);
        if left < 12 || ((left - 12) as u64) < (length as u64) {
            self.has_incomplete = true;
            return None;
        }
        let start = self.pos + 12;
        let end = start + length as usize;
        let mut out: Vec<u8> = Vec::new();
        let mut i: usize = start;
        while i < end
            invariant
                start <= i <= end,
                end <= self.data@.len(),
                out@ == self.data@.subrange(start as int, i as int),
            decreases end - i,
        {
            out.push(self.data[i]);
            i = i + 1;
            assert(out@ =~= self.data@.subrange(start as int, i as int));
        }
        self.pos = end;
        Some(out)
    }

    /// Refills the buffer with `fresh`, after what it keeps of an unfinished
    /// record; returns how many bytes were kept.
    pub fn fill(&mut self, fresh: Vec<u8>) -> (r: usize)
        requires
            old(self).wf(),
            preserved(old(self).spec_data(), old(self).spec_pos(), old(self).spec_incomplete()).len()
                + fresh@.len() <= usize::MAX,
        ensures
            final(self).wf(),
            final(self).spec_data() == preserved(old(self).spec_data(), old(self).spec_pos(), old(self).spec_incomplete())
                + fresh@,
            r == preserved(old(self).spec_data(), old(self).spec_pos(), old(self).spec_incomplete()).len(),
            final(self).spec_pos() == 0,
            !final(self).spec_exhausted(),
            !final(self).spec_incomplete(),
    {
        let ghost kept = preserved(self.data@, self.pos as int, self.has_incomplete);
        if self.has_incomplete && self.pos < self.data.len() {
            let remaining_len = self.data.len() - self.pos;
            let preserved_len = if remaining_len < MAX_PRESERVED_LEN {
                remaining_len
            } else {
                MAX_PRESERVED_LEN
            };
            let preserved_start = self.data.len() - preserved_len;
            let mut next: Vec<u8> = Vec::new();
            let mut i: usize = preserved_start;
            while i < self.data.len()
                invariant
                    preserved_start <= i <= self.data@.len(),
                    next@ == self.data@.subrange(preserved_start as int, i as int),
                decreases self.data@.len() - i,
            {
                next.push(self.data[i]);
                i = i + 1;
                assert(next@ =~= self.data@.subrange(preserved_start as int, i as int));
            }
            assert(next@ =~= kept);
            let mut j: usize = 0;
            while j < fresh.len()
                invariant
                    j <= fresh@.len(),
                    next@ == kept + fresh@.take(j as int),
                    kept.len() + fresh@.len() <= usize::MAX,
                decreases fresh@.len() - j,
            {
                next.push(fresh[j]);
                j = j + 1;
                assert(next@ =~= kept + fresh@.take(j as int));
            }
            assert(fresh@.take(j as int) =~= fresh@);
            self.data = next;
            self.pos = 0;
            self.exhausted = false;
            self.has_incomplete = false;
            preserved_len
        } else {
            assert(kept + fresh@ =~= fresh@);
            self.data = fresh;
            self.pos = 0;
            self.exhausted = false;
            self.has_incomplete = false;
            0
        }
    }

    /// Records that the reader found no more data.
    pub fn mark_exhausted(&mut self)
        ensures
            final(self).spec_exhausted(),
            final(self).spec_data() == old(self).spec_data(),
            final(self).spec_pos() == old(self).spec_pos(),
            final(self).spec_incomplete() == old(self).spec_incomplete(),
    {
        self.exhausted = true;
    }

    /// The number of bytes held.
    pub fn len(&self) -> (r: usize)
        ensures
            r == self.spec_data().len(),
    {
        self.data.len()
    }
}

/// The reading state of a coordinator: the read-ahead buffer, the position
/// of the records handed out (the consumed position) and the position the
/// buffer was read up to (the read-ahead position). Keeping the two apart
/// keeps the consumed position exact when the buffer runs across segments.
pub struct ReadCoordinator {
    buffer: ReadAheadBuffer,
    read_ahead_size: usize,
    consume_position: ReadPosition,
    read_ahead_position: ReadPosition,
}

impl ReadCoordinator {
    /// The read-ahead buffer.
    pub closed spec fn spec_buffer(&self) -> ReadAheadBuffer {
        self.buffer
    }

    /// Bytes read ahead at a time.
    pub closed spec fn spec_read_ahead_size(&self) -> usize {
        self.read_ahead_size
    }

    /// Where the records handed out end.
    pub closed spec fn spec_consume(&self) -> ReadPosition {
        self.consume_position
    }

    /// Where the buffer was read up to.
    pub closed spec fn spec_ahead(&self) -> ReadPosition {
        self.read_ahead_position
    }

    /// The buffer is well formed.
    pub open spec fn wf(&self) -> bool {
        self.spec_buffer().wf()
    }

    /// A coordinator starting at `start`, reading 64 KiB ahead.
    pub fn new(start: ReadPosition) -> (r: Self)
        ensures
            r.wf(),
            r.spec_consume() == start,
            r.spec_ahead() == start,
            r.spec_read_ahead_size() == 65536,
            r.spec_buffer().spec_data().len() == 0,
    {
        ReadCoordinator {
            buffer: ReadAheadBuffer::new(65536),
            read_ahead_size: 65536,
            consume_position: start,
            read_ahead_position: start,
        }
    }

    /// This coordinator reading `size` bytes ahead, with a fresh buffer.
    pub fn with_read_ahead(self, size: usize) -> (r: Self)
        ensures
            r.wf(),
            r.spec_consume() == self.spec_consume(),
            r.spec_ahead() == self.spec_ahead(),
            r.spec_read_ahead_size() == size,
            r.spec_buffer().spec_data().len() == 0,
    {
        ReadCoordinator {
            buffer: ReadAheadBuffer::new(size),
            read_ahead_size: size,
            consume_position: self.consume_position,
            read_ahead_position: self.read_ahead_position,
        }
    }

    /// Bytes read ahead at a time.
    pub fn read_ahead_size(&self) -> (r: usize)
        ensures
            r == self.spec_read_ahead_size(),
    {
        self.read_ahead_size
    }

    /// The consumed position.
    pub fn position(&self) -> (r: ReadPosition)
        ensures
            r == self.spec_consume(),
    {
        self.consume_position
    }

    /// The read-ahead position.
    pub fn read_ahead_position(&self) -> (r: ReadPosition)
        ensures
            r == self.spec_ahead(),
    {
        self.read_ahead_position
    }

    /// The number of bytes in the buffer.
    pub fn buffered_len(&self) -> (r: usize)
        ensures
            r == self.spec_buffer().spec_data().len(),
    {
        self.buffer.len()
    }

    /// Hands out the next buffered record, if a whole one is held, and
    /// moves the consumed position past it.
    pub fn read_from_buffer(&mut self) -> (r: Option<Vec<u8>>)
        requires
            old(self).wf(),
            old(self).spec_consume().offset + old(self).spec_buffer().spec_data().len() <= u64::MAX,
        ensures
            final(self).wf(),
            final(self).spec_ahead() == old(self).spec_ahead(),
            final(self).spec_read_ahead_size() == old(self).spec_read_ahead_size(),
            final(self).spec_buffer().spec_data() == old(self).spec_buffer().spec_data(),
            !old(self).spec_buffer().has_data_spec() ==> r is None && *final(self) == *old(self),
            old(self).spec_buffer().has_data_spec() ==> ({
                let rec = buffered_record(old(self).spec_buffer().spec_data(), old(self).spec_buffer().spec_pos());
                &&& rec is None ==> r is None && final(self).spec_consume() == old(self).spec_consume()
                    && final(self).spec_buffer().spec_incomplete()
                &&& rec matches Some(d) ==> (r matches Some(v) && v@ == d && final(self).spec_consume()
                    == (ReadPosition {
                    offset: (old(self).spec_consume().offset + 12 + d.len()) as u64,
                    ..old(self).spec_consume()
                }) && final(self).spec_buffer().spec_pos() == old(self).spec_buffer().spec_pos() + 12 + d.len())
            }),
    {
        match self.buffer.read() {
            Some(data) => {
                let record_size = 12 + data.len() as u64;
                self.consume_position.offset = self.consume_position.offset + record_size;
                Some(data)
            },
            None => None,
        }
    }

    /// Where to read ahead from and how many bytes, when the buffer holds no
    /// whole record to hand out; `None` otherwise.
    pub fn fill_request(&self) -> (r: Option<(ReadPosition, usize)>)
        ensures
            self.spec_buffer().has_data_spec() ==> r is None,
            !self.spec_buffer().has_data_spec() ==> r == Some((self.spec_ahead(), self.spec_read_ahead_size())),
    {
        if self.buffer.has_data() {
            None
        } else {
            Some((self.read_ahead_position, self.read_ahead_size))
        }
    }

    /// Takes the bytes read ahead, `data`, which end at `end`: nothing read
    /// means the end of the log; otherwise the buffer is refilled and the
    /// read-ahead position moves to `end`. Returns how many buffered bytes
    /// were kept.
    pub fn fill_with(&mut self, data: Vec<u8>, end: ReadPosition) -> (r: Result<usize, Error>)
        requires
            old(self).wf(),
            preserved(
                old(self).spec_buffer().spec_data(),
                old(self).spec_buffer().spec_pos(),
                old(self).spec_buffer().spec_incomplete(),
            ).len() + data@.len() <= usize::MAX,
        ensures
            final(self).wf(),
            final(self).spec_consume() == old(self).spec_consume(),
            final(self).spec_read_ahead_size() == old(self).spec_read_ahead_size(),
            data@.len() == 0 ==> (r matches Err(Error::Eof) && final(self).spec_buffer().spec_exhausted()
                && final(self).spec_ahead() == old(self).spec_ahead()
                && final(self).spec_buffer().spec_data() == old(self).spec_buffer().spec_data()),
            data@.len() > 0 ==> ({
                let kept = preserved(
                    old(self).spec_buffer().spec_data(),
                    old(self).spec_buffer().spec_pos(),
                    old(self).spec_buffer().spec_incomplete(),
                );
                &&& r == Ok::<usize, Error>(kept.len() as usize)
                &&& final(self).spec_buffer().spec_data() == kept + data@
                &&& final(self).spec_buffer().spec_pos() == 0
                &&& !final(self).spec_buffer().spec_incomplete()
                &&& final(self).spec_ahead() == end
            }),
    {
        if data.len() == 0 {
            self.buffer.mark_exhausted();
            return Err(Error::Eof);
        }
        let kept = self.buffer.fill(data);
        self.read_ahead_position = end;
        Ok(kept)
    }

    /// Moves both positions to `segment_id` and `offset`, dropping the
    /// buffer.
    pub fn seek(&mut self, segment_id: u64, offset: u64)
        ensures
            final(self).wf(),
            final(self).spec_consume() == (ReadPosition { segment_id, offset }),
            final(self).spec_ahead() == (ReadPosition { segment_id, offset }),
            final(self).spec_buffer().spec_data().len() == 0,
            final(self).spec_read_ahead_size() == old(self).spec_read_ahead_size(),
    {
        self.buffer.clear();
        self.consume_position = ReadPosition { segment_id, offset };
        self.read_ahead_position = ReadPosition { segment_id, offset };
    }

    /// Moves both positions to the first record of the first segment,
    /// dropping the buffer.
    pub fn seek_to_start(&mut self)
        ensures
            final(self).wf(),
            final(self).spec_consume() == (ReadPosition { segment_id: 1, offset: SEGMENT_HEADER_SIZE }),
            final(self).spec_ahead() == (ReadPosition { segment_id: 1, offset: SEGMENT_HEADER_SIZE }),
            final(self).spec_buffer().spec_data().len() == 0,
            final(self).spec_read_ahead_size() == old(self).spec_read_ahead_size(),
    {
        self.seek(1, SEGMENT_HEADER_SIZE);
    }
}

/// What the caller does once written records were counted.
#[derive(Debug, Clone)]
pub struct WriteFollowUp {
    /// The segment started because the one written was full: its id and
    /// the path of the file the caller creates.
    pub rotated: Option<(u64, String)>,
    /// How many bytes to sync now, when the sync policy asks for a sync.
    pub sync_bytes: Option<u64>,
}

/// The decisions of the write side, one step between each piece of work
/// that the caller does on the files: which segment to append to, when to
/// start the next segment, when to sync, and what a sync reports.
pub struct WriteCoordinator {
    segments: SegmentCoordinator,
    sync: SyncStrategy,
}

impl WriteCoordinator {
    /// The segments and the rotation policy.
    pub closed spec fn spec_segments(&self) -> SegmentCoordinator {
        self.segments
    }

    /// The sync policy.
    pub closed spec fn spec_sync(&self) -> SyncStrategy {
        self.sync
    }

    /// The segment bookkeeping is well formed.
    pub open spec fn wf(&self) -> bool {
        self.spec_segments().spec_manager().wf()
    }

    /// A write coordinator over `segments`, syncing as `sync` decides.
    pub fn new(segments: SegmentCoordinator, sync: SyncStrategy) -> (r: Self)
        ensures
            r.spec_segments() == segments,
            r.spec_sync() == sync,
    {
        WriteCoordinator { segments, sync }
    }

    /// The segments and the rotation policy.
    pub fn segments(&self) -> (r: &SegmentCoordinator)
        ensures
            *r == self.spec_segments(),
    {
        &self.segments
    }

    /// The sync policy.
    pub fn sync_strategy(&self) -> (r: &SyncStrategy)
        ensures
            *r == self.spec_sync(),
    {
        &self.sync
    }

    /// The first step of writing the records `data_list`: a record above
    /// `MAX_RECORD_SIZE` refuses the whole write and changes nothing;
    /// otherwise the id and path of the segment to append them to, the
    /// first segment being started when there is none. The caller opens
    /// that segment's file and appends the records' bytes.
    pub fn begin_write(&mut self, data_list: &[&[u8]]) -> (r: Result<(u64, String), Error>)
        requires
            old(self).wf(),
        ensures
            final(self).wf(),
            final(self).spec_sync() == old(self).spec_sync(),
            r is Ok <==> (forall|i: int| 0 <= i < data_list@.len() ==> (#[trigger] data_list@[i])@.len() <= MAX_RECORD_SIZE),
            r is Err ==> *final(self) == *old(self) && exists|i: int|
                0 <= i < data_list@.len() && (#[trigger] data_list@[i])@.len() > MAX_RECORD_SIZE && (forall|
                    j: int,
                | 0 <= j < i ==> (#[trigger] data_list@[j])@.len() <= MAX_RECORD_SIZE) && (r matches Err(
                    Error::Generic(m),
                ) && m@ == too_large_message(data_list@[i]@.len())),
            r matches Ok(p) ==> {
                let s0 = old(self).spec_segments();
                let s1 = final(self).spec_segments();
                &&& p.0 == s1.spec_manager().spec_active_id()
                &&& p.1@ == segment_path_spec(s1.spec_manager().spec_config(), p.0)
                &&& s1.spec_records() == s0.spec_records()
                &&& s1.spec_rotation_config() == s0.spec_rotation_config()
                &&& s1.spec_created_at() == s0.spec_created_at()
                &&& s0.spec_manager().spec_active_id() != 0 ==> s1.spec_manager() == s0.spec_manager()
                &&& s0.spec_manager().spec_active_id() == 0 ==> p.0 == 1 && s1.spec_manager().spec_active_size()
                    == 0 && s1.spec_manager().spec_config() == s0.spec_manager().spec_config()
            },
    {
        match check_batch_sizes(data_list) {
            Ok(()) => {},
            Err(e) => return Err(e),
        }
        Ok(self.segments.active_segment())
    }

    /// The second step, once `records` records of `bytes` bytes in all
    /// (headers included) were appended, `elapsed_ms` after the last sync,
    /// the segment written being `age_ms` old when known: counts them,
    /// starts the next segment when the one written is full, and tells
    /// whether to sync now.
    pub fn finish_write(&mut self, records: u64, bytes: u64, age_ms: Option<u64>, elapsed_ms: u64) -> (r:
        WriteFollowUp)
        requires
            old(self).wf(),
            old(self).spec_segments().spec_manager().spec_active_size() + bytes <= u64::MAX,
            old(self).spec_segments().spec_records() + records <= u64::MAX,
            old(self).spec_sync().spec_pending_bytes() + bytes <= u64::MAX,
            old(self).spec_segments().spec_manager().spec_active_id() < u64::MAX,
        ensures
            final(self).wf(),
            ({
                let s0 = old(self).spec_segments();
                let s1 = final(self).spec_segments();
                let size = s0.spec_manager().spec_active_size() + bytes;
                let count = s0.spec_records() + records;
                let due = rotation_due(s0.spec_rotation_config(), size as u64, count as u64, age_ms);
                &&& due ==> (r.rotated matches Some(p) && p.0 == s0.spec_manager().spec_active_id() + 1
                    && p.1@ == segment_path_spec(s0.spec_manager().spec_config(), p.0)
                    && s1.spec_manager().spec_active_id() == p.0 && s1.spec_manager().spec_active_size() == 0
                    && s1.spec_records() == 0 && s1.spec_created_at() is None)
                &&& !due ==> (r.rotated is None && s1.spec_manager().spec_active_id()
                    == s0.spec_manager().spec_active_id() && s1.spec_manager().spec_active_size() == size
                    && s1.spec_records() == count && s1.spec_created_at() == s0.spec_created_at())
                &&& s1.spec_rotation_config() == s0.spec_rotation_config()
                &&& s1.spec_manager().spec_config() == s0.spec_manager().spec_config()
            }),
            final(self).spec_sync().spec_pending_bytes() == old(self).spec_sync().spec_pending_bytes() + bytes,
            final(self).spec_sync().spec_mode() == old(self).spec_sync().spec_mode(),
            final(self).spec_sync().spec_stats() == old(self).spec_sync().spec_stats(),
            r.sync_bytes == write_decision(
                old(self).spec_sync().spec_mode(),
                final(self).spec_sync().spec_pending_bytes(),
                elapsed_ms,
            ),
    {
        self.segments.update_size(bytes, records);
        let rotated = self.segments.check_and_rotate(age_ms);
        let sync_bytes = self.sync.on_write_after(bytes, elapsed_ms);
        WriteFollowUp { rotated, sync_bytes }
    }

    /// Records that the file of the segment written was opened at `now`.
    pub fn mark_opened(&mut self, now: std::time::Instant)
        ensures
            final(self).spec_segments().spec_created_at() == Some(now),
            final(self).spec_segments().spec_manager() == old(self).spec_segments().spec_manager(),
            final(self).spec_segments().spec_records() == old(self).spec_segments().spec_records(),
            final(self).spec_segments().spec_rotation_config() == old(self).spec_segments().spec_rotation_config(),
            final(self).spec_sync() == old(self).spec_sync(),
    {
        self.segments.mark_opened(now);
    }

    /// The bytes that a sync asked for now covers: all that is pending.
    pub fn pending_sync_bytes(&self) -> (r: u64)
        ensures
            r == self.spec_sync().spec_pending_bytes(),
    {
        self.sync.pending_bytes()
    }

    /// The last step of a sync of `bytes` bytes, whose outcome was `result`,
    /// which took `duration_ms` and ended at `now`. On success the pending
    /// bytes and the statistics take it in and the report says it succeeded;
    /// on failure nothing changes and the error is `Error::Sync` with the
    /// failure's message.
    pub fn finish_sync(&mut self, result: Result<(), Error>, bytes: u64, duration_ms: u64, now: std::time::Instant) -> (r:
        Result<SyncReport, Error>)
        ensures
            final(self).spec_segments() == old(self).spec_segments(),
            result is Err ==> *final(self) == *old(self),
            result matches Err(e) ==> (r matches Err(Error::Sync(m)) && (!(e is Io) ==> m@ == e.message_spec())),
            result is Ok ==> {
                let st0 = old(self).spec_sync();
                let st1 = final(self).spec_sync();
                &&& r matches Ok(rep) && rep.duration_ms == duration_ms && rep.success && rep.error is None
                &&& st1.spec_pending_bytes() == (if st0.spec_pending_bytes() >= bytes {
                    st0.spec_pending_bytes() - bytes
                } else {
                    0
                })
                &&& st1.spec_mode() == st0.spec_mode()
                &&& st1.spec_stats().sync_count == wrapping_add(st0.spec_stats().sync_count, 1)
                &&& st1.spec_stats().synced_bytes == wrapping_add(st0.spec_stats().synced_bytes, bytes)
                &&& st1.spec_stats().sync_time_ms == wrapping_add(st0.spec_stats().sync_time_ms, duration_ms)
                &&& st1.spec_stats().last_sync_at == Some(now)
            },
    {
        match result {
            Ok(()) => {
                self.sync.on_synced_at(bytes, duration_ms, now);
                Ok(SyncReport { duration_ms, success: true, error: None })
            },
            Err(e) => Err(Error::Sync(e.to_string())),
        }
    }
}

/// What the first step of reading the next record gives.
#[derive(Debug, Clone)]
pub enum ReadStep {
    /// The next record, handed out of the buffer.
    Record(Vec<u8>),
    /// No whole record is buffered: the caller reads this many bytes from
    /// this position and hands them to `read_after_fill`.
    Fill(ReadPosition, usize),
}

impl ReadCoordinator {
    /// The first step of reading the next record: a whole buffered record
    /// is handed out; otherwise where to read ahead from, and how much.
    pub fn read_step(&mut self) -> (r: ReadStep)
        requires
            old(self).wf(),
            old(self).spec_consume().offset + old(self).spec_buffer().spec_data().len() <= u64::MAX,
        ensures
            final(self).wf(),
            final(self).spec_ahead() == old(self).spec_ahead(),
            final(self).spec_read_ahead_size() == old(self).spec_read_ahead_size(),
            final(self).spec_buffer().spec_data() == old(self).spec_buffer().spec_data(),
            ({
                let b = old(self).spec_buffer();
                let rec = buffered_record(b.spec_data(), b.spec_pos());
                &&& (b.has_data_spec() && rec is Some) ==> (r matches ReadStep::Record(v) && v@ == rec->0
                    && final(self).spec_consume() == (ReadPosition {
                    offset: (old(self).spec_consume().offset + 12 + v@.len()) as u64,
                    ..old(self).spec_consume()
                }))
                &&& !(b.has_data_spec() && rec is Some) ==> (r matches ReadStep::Fill(p, n) && p
                    == old(self).spec_ahead() && n == old(self).spec_read_ahead_size()
                    && final(self).spec_consume() == old(self).spec_consume()
                    && !final(self).spec_buffer().has_data_spec())
            }),
    {
        match self.read_from_buffer() {
            Some(d) => ReadStep::Record(d),
            None => ReadStep::Fill(self.read_ahead_position, self.read_ahead_size),
        }
    }

    /// The second step, once the bytes read ahead, `data`, ending at `end`,
    /// came back: nothing read is the end of the log; otherwise the buffer
    /// is refilled and the record now whole at its start is handed out, or
    /// the end of the log when none is.
    pub fn read_after_fill(&mut self, data: Vec<u8>, end: ReadPosition) -> (r: Result<Vec<u8>, Error>)
        requires
            old(self).wf(),
            !old(self).spec_buffer().has_data_spec(),
            preserved(
                old(self).spec_buffer().spec_data(),
                old(self).spec_buffer().spec_pos(),
                old(self).spec_buffer().spec_incomplete(),
            ).len() + data@.len() <= usize::MAX,
            old(self).spec_consume().offset + preserved(
                old(self).spec_buffer().spec_data(),
                old(self).spec_buffer().spec_pos(),
                old(self).spec_buffer().spec_incomplete(),
            ).len() + data@.len() <= u64::MAX,
        ensures
            final(self).wf(),
            final(self).spec_read_ahead_size() == old(self).spec_read_ahead_size(),
            data@.len() == 0 ==> (r matches Err(Error::Eof) && final(self).spec_consume() == old(self).spec_consume()
                && final(self).spec_ahead() == old(self).spec_ahead()),
            data@.len() > 0 ==> ({
                let buf = preserved(
                    old(self).spec_buffer().spec_data(),
                    old(self).spec_buffer().spec_pos(),
                    old(self).spec_buffer().spec_incomplete(),
                ) + data@;
                &&& final(self).spec_ahead() == end
                &&& final(self).spec_buffer().spec_data() == buf
                &&& buffered_record(buf, 0) matches Some(d) ==> (r matches Ok(v) && v@ == d
                    && final(self).spec_consume() == (ReadPosition {
                    offset: (old(self).spec_consume().offset + 12 + d.len()) as u64,
                    ..old(self).spec_consume()
                }))
                &&& buffered_record(buf, 0) is None ==> (r matches Err(Error::Eof)
                    && final(self).spec_consume() == old(self).spec_consume())
            }),
    {
        match self.fill_with(data, end) {
            Ok(_) => {},
            Err(e) => return Err(e),
        }
        match self.read_from_buffer() {
            Some(d) => Ok(d),
            None => Err(Error::Eof),
        }
    }
}

/// What a writer appends in one batch, the read-ahead buffer hands out in
/// order: the record of item `i` is parsed where the records of the items
/// before it end, and holds item `i`.
pub proof fn lemma_buffer_reads_batch(ds: Seq<Seq<u8>>, i: int)
    requires
        0 <= i < ds.len(),
        ds[i].len() <= u32::MAX,
    ensures
        buffered_record(batch_bytes(ds), batch_len(ds.take(i)) as int) == Some(ds[i]),
{
    lemma_batch_record_at(ds, i);
}

} // verus!
