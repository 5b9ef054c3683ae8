//! Crash recovery: checkpoints and their byte format, and the scan that
//! walks a segment's length-prefixed records to find where the valid data
//! ends.
//!
//! The files are read, truncated and written by the caller; this module
//! decides from their bytes.
use crate::bytes::{
    be32, be64, from_be32, from_be64, lemma_be32_at, lemma_be64_at, lemma_be64_roundtrip, push_be32,
    push_be64, read_be32, read_be64,
};
use crate::decimal::{fixed_digits, fixed_width_decimal, parse_u64, parse_u64_spec};
use crate::clock::unix_timestamp_secs;
use crate::error::Error;
use crate::paths::{join, join_spec};
use vstd::prelude::*;
use vstd::string::{StrSliceExecFns, StringExecFns};

verus! {

/// A position in the log: a segment, an offset inside it, and where the
/// last record before that offset started.
#[derive(Debug, Clone, Copy, PartialEq, Eq, Structural)]
pub struct CheckpointPosition {
    /// The segment.
    pub segment_id: u64,
    /// The offset inside the segment.
    pub offset: u64,
    /// Where the last record before `offset` starts.
    pub last_record_start: u64,
}

impl Default for CheckpointPosition {
    fn default() -> (r: Self)
        ensures
            r == (CheckpointPosition { segment_id: 0, offset: 0, last_record_start: 0 }),
    {
        CheckpointPosition { segment_id: 0, offset: 0, last_record_start: 0 }
    }
}

/// A recovery point.
#[derive(Debug, Clone)]
pub struct Checkpoint {
    /// The last position known to be valid.
    pub last_valid_position: CheckpointPosition,
    /// When the checkpoint was made, in seconds since the Unix epoch.
    pub timestamp: u64,
    /// Segments that were complete when the checkpoint was made.
    pub sealed_segments: Vec<u64>,
    /// Format version of the checkpoint.
    pub version: u32,
}

/// A checkpoint as a mathematical value.
pub struct CheckpointView {
    pub last_valid_position: CheckpointPosition,
    pub timestamp: u64,
    pub sealed_segments: Seq<u64>,
    pub version: u32,
}

impl View for Checkpoint {
    type V = CheckpointView;

    open spec fn view(&self) -> CheckpointView {
        CheckpointView {
            last_valid_position: self.last_valid_position,
            timestamp: self.timestamp,
            sealed_segments: self.sealed_segments@,
            version: self.version,
        }
    }
}

/// The big-endian encodings of `ids`, one after the other.
pub open spec fn ids_bytes(ids: Seq<u64>) -> Seq<u8>
    decreases ids.len(),
{
    if ids.len() == 0 {
        Seq::empty()
    } else {
        ids_bytes(ids.drop_last()) + be64(ids.last())
    }
}

/// The serialized form of a checkpoint: version (4 bytes), timestamp,
/// segment id, offset and last record start (8 bytes each), the number of
/// sealed segments (4 bytes, its low 32 bits) and the sealed segment ids
/// (8 bytes each), all big-endian.
pub open spec fn checkpoint_bytes(c: CheckpointView) -> Seq<u8> {
    be32(c.version) + be64(c.timestamp) + be64(c.last_valid_position.segment_id) + be64(
        c.last_valid_position.offset,
    ) + be64(c.last_valid_position.last_record_start) + be32(c.sealed_segments.len() as u32)
        + ids_bytes(c.sealed_segments)
}

/// The checkpoint that `from_bytes` reads from `b`, if it accepts `b`:
/// the 40 bytes of the fixed fields, and room for every sealed segment id
/// announced.
pub open spec fn parse_checkpoint(b: Seq<u8>) -> Option<CheckpointView> {
    if b.len() < 40 {
        None
    } else {
        let count = from_be32(b, 36);
        if 40 + 8 * count <= b.len() {
            Some(
                CheckpointView {
                    version: from_be32(b, 0),
                    timestamp: from_be64(b, 4),
                    last_valid_position: CheckpointPosition {
                        segment_id: from_be64(b, 12),
                        offset: from_be64(b, 20),
                        last_record_start: from_be64(b, 28),
                    },
                    sealed_segments: Seq::new(count as nat, |i: int| from_be64(b, 40 + 8 * i)),
                },
            )
        } else {
            None
        }
    }
}

proof fn lemma_ids_bytes_len(ids: Seq<u64>)
    ensures
        ids_bytes(ids).len() == 8 * ids.len(),
    decreases ids.len(),
{
    if ids.len() > 0 {
        lemma_ids_bytes_len(ids.drop_last());
    }
}

proof fn lemma_ids_bytes_read(ids: Seq<u64>, prefix: Seq<u8>, suffix: Seq<u8>, i: int)
    requires
        0 <= i < ids.len(),
    ensures
        from_be64(prefix + ids_bytes(ids) + suffix, prefix.len() + 8 * i) == ids[i],
    decreases ids.len(),
{
    let last = ids.len() - 1;
    lemma_ids_bytes_len(ids.drop_last());
    if i == last {
        assert(prefix + ids_bytes(ids) + suffix == (prefix + ids_bytes(ids.drop_last())) + be64(ids.last()) + suffix);
        lemma_be64_roundtrip(ids.last(), prefix + ids_bytes(ids.drop_last()), suffix);
    } else {
        assert(prefix + ids_bytes(ids) + suffix == prefix + ids_bytes(ids.drop_last()) + (be64(ids.last()) + suffix));
        lemma_ids_bytes_read(ids.drop_last(), prefix, be64(ids.last()) + suffix, i);
    }
}

/// A serialized checkpoint reads back as the same checkpoint, whenever the
/// number of sealed segments fits the 32-bit count.
pub proof fn lemma_checkpoint_roundtrip(c: CheckpointView)
    requires
        c.sealed_segments.len() <= u32::MAX,
    ensures
        parse_checkpoint(checkpoint_bytes(c)) == Some(c),
{
    let p = c.last_valid_position;
    let n = c.sealed_segments.len() as u32;
    let ids = ids_bytes(c.sealed_segments);
    let b = checkpoint_bytes(c);
    lemma_ids_bytes_len(c.sealed_segments);
    let h = be32(c.version) + be64(c.timestamp) + be64(p.segment_id) + be64(p.offset) + be64(
        p.last_record_start,
    ) + be32(n);
    assert(b == h + ids);
    assert(h.len() == 40);
    assert(b.subrange(0, 4) =~= be32(c.version));
    lemma_be32_at(b, 0, c.version);
    assert(b.subrange(4, 12) =~= be64(c.timestamp));
    lemma_be64_at(b, 4, c.timestamp);
    assert(b.subrange(12, 20) =~= be64(p.segment_id));
    lemma_be64_at(b, 12, p.segment_id);
    assert(b.subrange(20, 28) =~= be64(p.offset));
    lemma_be64_at(b, 20, p.offset);
    assert(b.subrange(28, 36) =~= be64(p.last_record_start));
    lemma_be64_at(b, 28, p.last_record_start);
    assert(b.subrange(36, 40) =~= be32(n));
    lemma_be32_at(b, 36, n);
    let r = parse_checkpoint(b).unwrap();
    assert forall|i: int| 0 <= i < n implies r.sealed_segments[i] == c.sealed_segments[i] by {
        lemma_ids_bytes_read(c.sealed_segments, h, Seq::empty(), i);
        assert(h + ids + Seq::<u8>::empty() =~= b);
    }
    assert(r.sealed_segments =~= c.sealed_segments);
}

impl Checkpoint {
    /// A checkpoint at `position`, stamped with the current time, with no
    /// sealed segments, version 1.
    pub fn new(position: CheckpointPosition) -> (r: Self)
        ensures
            r.last_valid_position == position,
            r.sealed_segments@ == Seq::<u64>::empty(),
            r.version == 1,
    {
        Self::new_at(position, unix_timestamp_secs())
    }

    /// A checkpoint at `position`, stamped `timestamp`, with no sealed
    /// segments, version 1.
    pub fn new_at(position: CheckpointPosition, timestamp: u64) -> (r: Self)
        ensures
            r@ == (CheckpointView {
                last_valid_position: position,
                timestamp,
                sealed_segments: Seq::<u64>::empty(),
                version: 1,
            }),
    {
        Checkpoint { last_valid_position: position, timestamp, sealed_segments: Vec::new(), version: 1 }
    }

    /// This checkpoint with `segment_id` added to the sealed segments.
    pub fn with_sealed_segment(self, segment_id: u64) -> (r: Self)
        ensures
            r@ == (CheckpointView { sealed_segments: self@.sealed_segments.push(segment_id), ..self@ }),
    {
        let mut c = self;
        c.sealed_segments.push(segment_id);
        c
    }

    /// The serialized form of this checkpoint.
    pub fn to_bytes(&self) -> (r: Vec<u8>)
        ensures
            r@ == checkpoint_bytes(self@),
    {
        let mut bytes: Vec<u8> = Vec::new();
        push_be32(&mut bytes, self.version);
        push_be64(&mut bytes, self.timestamp);
        push_be64(&mut bytes, self.last_valid_position.segment_id);
        push_be64(&mut bytes, self.last_valid_position.offset);
        push_be64(&mut bytes, self.last_valid_position.last_record_start);
        push_be32(&mut bytes, self.sealed_segments.len() as u32);
        let ghost head = bytes@;
        let mut i: usize = 0;
        while i < self.sealed_segments.len()
            invariant
                i <= self.sealed_segments@.len(),
                bytes@ == head + ids_bytes(self.sealed_segments@.take(i as int)),
            decreases self.sealed_segments@.len() - i,
        {
            push_be64(&mut bytes, self.sealed_segments[i]);
            proof {
                let ids = self.sealed_segments@.take(i + 1);
                assert(ids.drop_last() =~= self.sealed_segments@.take(i as int));
            }
            i = i + 1;
        }
        assert(self.sealed_segments@.take(i as int) =~= self.sealed_segments@);
        bytes
    }

    /// Reads a checkpoint from its serialized form. Data too short for the
    /// fixed fields, or for the sealed segment ids it announces, is refused.
    pub fn from_bytes(bytes: &[u8]) -> (r: Result<Self, Error>)
        ensures
            r is Ok <==> parse_checkpoint(bytes@) is Some,
            r matches Ok(c) ==> Some(c@) == parse_checkpoint(bytes@),
            r is Err ==> (r matches Err(Error::Generic(m)) && m@ == "Invalid checkpoint data"@),
    {
        if bytes.len() < 40 {
            return Err(Error::Generic(String::from_str("Invalid checkpoint data")));
        }
        let version = read_be32(bytes, 0);
        let timestamp = read_be64(bytes, 4);
        let segment_id = read_be64(bytes, 12);
        let offset_field = read_be64(bytes, 20);
        let last_record_start = read_be64(bytes, 28);
        let sealed_count = read_be32(bytes, 36);
        let mut offset: usize = 40;
        let mut sealed_segments: Vec<u64> = Vec::new();
        let mut i: u32 = 0;
        while i < sealed_count
            invariant
                i <= sealed_count,
                bytes@.len() >= 40,
                sealed_count == from_be32(bytes@, 36),
                offset == 40 + 8 * i,
                offset <= bytes@.len(),
                sealed_segments@ == Seq::new(i as nat, |j: int| from_be64(bytes@, 40 + 8 * j)),
            decreases sealed_count - i,
        {
            if bytes.len() - offset < 8 {
                return Err(Error::Generic(String::from_str("Invalid checkpoint data")));
            }
            let seg_id = read_be64(bytes, offset);
            offset = offset + 8;
            sealed_segments.push(seg_id);
            i = i + 1;
            assert(sealed_segments@ =~= Seq::new(i as nat, |j: int| from_be64(bytes@, 40 + 8 * j)));
        }
        let c = Checkpoint {
            last_valid_position: CheckpointPosition {
                segment_id,
                offset: offset_field,
                last_record_start,
            },
            timestamp,
            sealed_segments,
            version,
        };
        Ok(c)
    }
}

/// How recovery proceeds.
#[derive(Debug, Clone, Copy, PartialEq, Eq, Structural)]
pub enum RecoveryMode {
    /// Scan every segment and check every record.
    FullScan,
    /// Start from the checkpoint when it is still valid.
    Incremental,
    /// Check only; recover and truncate nothing.
    VerifyOnly,
}

/// What a recovery found and did.
#[derive(Debug, Clone, Copy, PartialEq, Eq, Structural)]
pub struct RecoveryResult {
    /// Records recovered.
    pub records_recovered: u64,
    /// Byte positions skipped because no valid record started there.
    pub corrupted_skipped: u64,
    /// Segments truncated.
    pub segments_truncated: u64,
    /// The last valid position.
    pub last_valid_position: CheckpointPosition,
    /// How long the recovery took, in milliseconds.
    pub duration_ms: u64,
}

impl RecoveryResult {
    /// A result with nothing recovered yet.
    pub fn empty() -> (r: Self)
        ensures
            r == (RecoveryResult {
                records_recovered: 0,
                corrupted_skipped: 0,
                segments_truncated: 0,
                last_valid_position: CheckpointPosition { segment_id: 0, offset: 0, last_record_start: 0 },
                duration_ms: 0,
            }),
    {
        RecoveryResult {
            records_recovered: 0,
            corrupted_skipped: 0,
            segments_truncated: 0,
            last_valid_position: CheckpointPosition::default(),
            duration_ms: 0,
        }
    }

    /// Counts one more segment truncated.
    pub fn count_truncation(&mut self)
        requires
            old(self).segments_truncated < u64::MAX,
        ensures
            *final(self) == (RecoveryResult { segments_truncated: (old(self).segments_truncated + 1) as u64, ..*old(self) }),
    {
        self.segments_truncated = self.segments_truncated + 1;
    }
}

/// The largest record length that recovery accepts: 64 MiB.
pub const MAX_RECOVERY_RECORD: u64 = 67108864u64;

/// Whether a record in the recovery format (8-byte big-endian length, then
/// the data) starts at `offset` in `content`: the length is there, between
/// 1 and 64 MiB, and the data fits before the end.
pub open spec fn record_valid(content: Seq<u8>, offset: int) -> bool {
    &&& 0 <= offset
    &&& offset + 8 <= content.len()
    &&& from_be64(content, offset) != 0
    &&& from_be64(content, offset) <= MAX_RECOVERY_RECORD
    &&& offset + 8 + from_be64(content, offset) <= content.len()
}

/// The state of the scan of one segment.
pub struct ScanState {
    pub offset: int,
    pub records: int,
    pub skipped: int,
    pub last: CheckpointPosition,
}

/// The scan of `content` (segment `segment_id`) from `st.offset` on: at a
/// valid record, count it (unless only verifying) and jump past it; at any
/// other position, count a skipped byte and move one byte on; stop when
/// fewer than 8 bytes are left.
pub open spec fn scan_spec(content: Seq<u8>, segment_id: u64, verify_only: bool, st: ScanState) -> ScanState
    decreases content.len() - st.offset,
{
    if st.offset < 0 || st.offset + 8 > content.len() {
        st
    } else if record_valid(content, st.offset) {
        let len = from_be64(content, st.offset);
        let next = st.offset + 8 + len;
        scan_spec(
            content,
            segment_id,
            verify_only,
            ScanState {
                offset: next,
                records: if verify_only { st.records } else { st.records + 1 },
                skipped: st.skipped,
                last: CheckpointPosition {
                    segment_id,
                    offset: next as u64,
                    last_record_start: st.offset as u64,
                },
            },
        )
    } else {
        scan_spec(
            content,
            segment_id,
            verify_only,
            ScanState { offset: st.offset + 1, skipped: st.skipped + 1, ..st },
        )
    }
}

/// Scanning in verify-only mode finds what a full scan finds: where the
/// scan stops, the bytes skipped and the last valid position do not depend
/// on the mode, which only decides whether records are counted.
pub proof fn lemma_scan_mode_independent(content: Seq<u8>, segment_id: u64, st: ScanState)
    ensures
        scan_spec(content, segment_id, true, st).last == scan_spec(content, segment_id, false, st).last,
        scan_spec(content, segment_id, true, st).skipped == scan_spec(content, segment_id, false, st).skipped,
        scan_spec(content, segment_id, true, st).offset == scan_spec(content, segment_id, false, st).offset,
        scan_spec(content, segment_id, true, st).records == st.records,
{
    lemma_scan_same_but_records(content, segment_id, st, st);
}

proof fn lemma_scan_same_but_records(content: Seq<u8>, segment_id: u64, a: ScanState, b: ScanState)
    requires
        a.offset == b.offset,
        a.skipped == b.skipped,
        a.last == b.last,
    ensures
        scan_spec(content, segment_id, true, a).last == scan_spec(content, segment_id, false, b).last,
        scan_spec(content, segment_id, true, a).skipped == scan_spec(content, segment_id, false, b).skipped,
        scan_spec(content, segment_id, true, a).offset == scan_spec(content, segment_id, false, b).offset,
        scan_spec(content, segment_id, true, a).records == a.records,
    decreases content.len() - a.offset,
{
    if a.offset < 0 || a.offset + 8 > content.len() {
    } else if record_valid(content, a.offset) {
        let len = from_be64(content, a.offset);
        let next = a.offset + 8 + len;
        let last = CheckpointPosition { segment_id, offset: next as u64, last_record_start: a.offset as u64 };
        lemma_scan_same_but_records(
            content,
            segment_id,
            ScanState { offset: next, records: a.records, skipped: a.skipped, last },
            ScanState { offset: next, records: b.records + 1, skipped: b.skipped, last },
        );
    } else {
        lemma_scan_same_but_records(
            content,
            segment_id,
            ScanState { offset: a.offset + 1, skipped: a.skipped + 1, ..a },
            ScanState { offset: b.offset + 1, skipped: b.skipped + 1, ..b },
        );
    }
}

/// The last valid position a scan reports is the one it started with, or
/// that of a valid record it met: the segment scanned, the record's start,
/// and its end, 8 bytes of length and the data past the start.
pub proof fn lemma_scan_last_is_valid_record(content: Seq<u8>, segment_id: u64, verify_only: bool, st: ScanState)
    requires
        content.len() <= usize::MAX,
    ensures
        ({
            let l = scan_spec(content, segment_id, verify_only, st).last;
            ||| l == st.last
            ||| (l.segment_id == segment_id && st.offset <= l.last_record_start && record_valid(
                content,
                l.last_record_start as int,
            ) && l.offset == l.last_record_start + 8 + from_be64(content, l.last_record_start as int))
        }),
    decreases content.len() - st.offset,
{
    if st.offset < 0 || st.offset + 8 > content.len() {
    } else if record_valid(content, st.offset) {
        let len = from_be64(content, st.offset);
        let next = st.offset + 8 + len;
        let nst = ScanState {
            offset: next,
            records: if verify_only { st.records } else { st.records + 1 },
            skipped: st.skipped,
            last: CheckpointPosition { segment_id, offset: next as u64, last_record_start: st.offset as u64 },
        };
        assert(nst.last.last_record_start == st.offset);
        assert(nst.last.offset == next);
        lemma_scan_last_is_valid_record(content, segment_id, verify_only, nst);
    } else {
        lemma_scan_last_is_valid_record(
            content,
            segment_id,
            verify_only,
            ScanState { offset: st.offset + 1, skipped: st.skipped + 1, ..st },
        );
    }
}

/// Records in the recovery format, one after the other.
pub open spec fn framed(records: Seq<Seq<u8>>) -> Seq<u8>
    decreases records.len(),
{
    if records.len() == 0 {
        Seq::empty()
    } else {
        be64(records[0].len() as u64) + records[0] + framed(records.drop_first())
    }
}

/// Whether every record has a length that recovery accepts.
pub open spec fn acceptable_lengths(records: Seq<Seq<u8>>) -> bool {
    forall|i: int| 0 <= i < records.len() ==> 1 <= (#[trigger] records[i]).len() <= MAX_RECOVERY_RECORD
}

/// A segment made of well-formed records, one after the other, is scanned
/// to its end: every record is counted (unless only verifying), no byte is
/// skipped, and nothing is left to truncate.
pub proof fn lemma_scan_framed(prefix: Seq<u8>, records: Seq<Seq<u8>>, segment_id: u64, verify_only: bool, st: ScanState)
    requires
        acceptable_lengths(records),
        st.offset == prefix.len(),
    ensures
        ({
            let c = prefix + framed(records);
            let r = scan_spec(c, segment_id, verify_only, st);
            &&& r.offset == c.len()
            &&& r.records == st.records + (if verify_only { 0 } else { records.len() as int })
            &&& r.skipped == st.skipped
        }),
    decreases records.len(),
{
    let c = prefix + framed(records);
    if records.len() == 0 {
        assert(c =~= prefix);
    } else {
        let d = records[0];
        let rest = records.drop_first();
        let head = be64(d.len() as u64);
        assert(c =~= prefix + head + (d + framed(rest)));
        lemma_be64_roundtrip(d.len() as u64, prefix, d + framed(rest));
        assert(record_valid(c, st.offset));
        let next = st.offset + 8 + d.len();
        let st2 = ScanState {
            offset: next,
            records: if verify_only { st.records } else { st.records + 1 },
            skipped: st.skipped,
            last: CheckpointPosition {
                segment_id,
                offset: next as u64,
                last_record_start: st.offset as u64,
            },
        };
        assert forall|i: int| 0 <= i < rest.len() implies 1 <= (#[trigger] rest[i]).len() <= MAX_RECOVERY_RECORD by {
            assert(rest[i] == records[i + 1]);
        }
        lemma_scan_framed(prefix + head + d, rest, segment_id, verify_only, st2);
        assert(prefix + head + d + framed(rest) =~= c);
    }
}

/// The segment file name `<id as 20 digits>.seg`.
pub open spec fn seg_file_name(segment_id: u64) -> Seq<char> {
    fixed_digits(segment_id as nat, 20) + ".seg"@
}

/// `name` with every trailing ".seg" removed.
pub open spec fn trim_seg_suffixes(name: Seq<char>) -> Seq<char>
    decreases name.len(),
{
    if name.len() >= 4 && name.subrange(name.len() - 4, name.len() as int) == ".seg"@ {
        trim_seg_suffixes(name.take(name.len() - 4))
    } else {
        name
    }
}

/// The segment id of a file named `<decimal>.seg`, as recovery lists them.
pub open spec fn segment_id_of_name(name: Seq<char>) -> Option<u64> {
    if name.len() >= 4 && name.subrange(name.len() - 4, name.len() as int) == ".seg"@ {
        parse_u64_spec(trim_seg_suffixes(name))
    } else {
        None
    }
}

/// Drives recovery of the segments in a directory.
pub struct RecoveryManager {
    dir: String,
    checkpoint_path: String,
    mode: RecoveryMode,
}

impl RecoveryManager {
    pub closed spec fn spec_dir(&self) -> Seq<char> {
        self.dir@
    }

    pub closed spec fn spec_checkpoint_path(&self) -> Seq<char> {
        self.checkpoint_path@
    }

    pub closed spec fn spec_mode(&self) -> RecoveryMode {
        self.mode
    }

    /// A manager for the segments in `dir`, keeping its checkpoint in
    /// `dir/checkpoint.data`, in full-scan mode.
    pub fn new(dir: &str) -> (r: Self)
        ensures
            r.spec_dir() == dir@,
            r.spec_checkpoint_path() == join_spec(dir@, "checkpoint.data"@),
            r.spec_mode() == RecoveryMode::FullScan,
    {
        let checkpoint_path = join(dir, "checkpoint.data");
        RecoveryManager { dir: String::from_str(dir), checkpoint_path, mode: RecoveryMode::FullScan }
    }

    /// This manager with the recovery mode set to `mode`.
    pub fn with_mode(self, mode: RecoveryMode) -> (r: Self)
        ensures
            r.spec_dir() == self.spec_dir(),
            r.spec_checkpoint_path() == self.spec_checkpoint_path(),
            r.spec_mode() == mode,
    {
        RecoveryManager { mode, ..self }
    }

    /// The directory of the segments.
    pub fn dir(&self) -> (r: &str)
        ensures
            r@ == self.spec_dir(),
    {
        self.dir.as_str()
    }

    /// The path of the checkpoint file.
    pub fn checkpoint_path(&self) -> (r: &str)
        ensures
            r@ == self.spec_checkpoint_path(),
    {
        self.checkpoint_path.as_str()
    }

    /// The recovery mode.
    pub fn mode(&self) -> (r: RecoveryMode)
        ensures
            r == self.spec_mode(),
    {
        self.mode
    }

    /// The path of segment `segment_id`: `<dir>/<id as 20 digits>.seg`.
    pub fn segment_path(&self, segment_id: u64) -> (r: String)
        ensures
            r@ == join_spec(self.spec_dir(), seg_file_name(segment_id)),
    {
        proof {
            reveal_strlit(".seg");
        }
        let name = fixed_width_decimal(segment_id, 20).concat(".seg");
        join(self.dir.as_str(), name.as_str())
    }

    /// The segment id of a directory entry named `name`, when it is a
    /// segment file: it ends with ".seg", and what is left after removing
    /// every trailing ".seg" is a decimal number.
    pub fn segment_id_of(name: &str) -> (r: Option<u64>)
        ensures
            r == segment_id_of_name(name@),
    {
        proof {
            reveal_strlit(".seg");
        }
        if !ends_with_seg(name) {
            return None;
        }
        let mut n = name.unicode_len();
        let ghost full = name@;
        assert(name@.take(n as int) =~= name@);
        while n >= 4 && ends_with_seg(name.substring_char(0, n))
            invariant
                n <= name@.len(),
                trim_seg_suffixes(name@.take(n as int)) == trim_seg_suffixes(full),
                full == name@,
            decreases n,
        {
            proof {
                assert(name@.take(n as int).take(n - 4) =~= name@.take(n - 4));
            }
            n = n - 4;
        }
        proof {
            let t = name@.take(n as int);
            if t.len() >= 4 && t.subrange(t.len() - 4, t.len() as int) == ".seg"@ {
                assert(n >= 4);
            }
            assert(trim_seg_suffixes(t) == t);
            assert(name@.take(name@.len() as int) =~= name@);
        }
        let stem = name.substring_char(0, n);
        parse_u64(stem)
    }

    /// Whether a record in the recovery format starts at `offset` of the
    /// segment bytes `content`.
    pub fn verify_record(&self, content: &[u8], offset: u64) -> (r: bool)
        ensures
            r == record_valid(content@, offset as int),
    {
        if offset >= content.len() as u64 || content.len() as u64 - offset < 8 {
            return false;
        }
        let o = offset as usize;
        let length = read_be64(content, o);
        if length == 0 || length > MAX_RECOVERY_RECORD {
            return false;
        }
        let data_offset = offset + 8;
        if length > content.len() as u64 - data_offset {
            return false;
        }
        true
    }

    /// Scans the bytes of segment `segment_id`, adding what it finds to
    /// `result`. Returns where the segment is to be truncated: where the scan
    /// stopped, when that is before the end and the mode is not
    /// verify-only.
    pub fn scan_segment(&self, content: &[u8], segment_id: u64, result: &mut RecoveryResult) -> (r: Option<u64>)
        requires
            old(result).records_recovered + content@.len() <= u64::MAX,
            old(result).corrupted_skipped + content@.len() <= u64::MAX,
        ensures
            ({
                let verify_only = self.spec_mode() == RecoveryMode::VerifyOnly;
                let st = scan_spec(
                    content@,
                    segment_id,
                    verify_only,
                    ScanState { offset: 0, records: 0, skipped: 0, last: old(result).last_valid_position },
                );
                &&& final(result).records_recovered == old(result).records_recovered + st.records
                &&& final(result).corrupted_skipped == old(result).corrupted_skipped + st.skipped
                &&& final(result).last_valid_position == st.last
                &&& final(result).segments_truncated == old(result).segments_truncated
                &&& final(result).duration_ms == old(result).duration_ms
                &&& r == (if st.offset < content@.len() && !verify_only {
                    Some(st.offset as u64)
                } else {
                    None
                })
            }),
    {
        let verify_only = self.mode == RecoveryMode::VerifyOnly;
        let len: usize = content.len();
        let file_size = len as u64;
        let mut offset: u64 = 0;
        let ghost start = ScanState { offset: 0, records: 0, skipped: 0, last: result.last_valid_position };
        let ghost r0 = result.records_recovered;
        let ghost s0 = result.corrupted_skipped;
        while offset <= file_size && file_size - offset >= 8
            invariant
                file_size == content@.len(),
                content@.len() <= usize::MAX,
                offset <= file_size,
                verify_only == (self.spec_mode() == RecoveryMode::VerifyOnly),
                result.records_recovered - r0 <= offset,
                result.corrupted_skipped - s0 <= offset,
                r0 + content@.len() <= u64::MAX,
                s0 + content@.len() <= u64::MAX,
                result.segments_truncated == old(result).segments_truncated,
                result.duration_ms == old(result).duration_ms,
                r0 == old(result).records_recovered,
                s0 == old(result).corrupted_skipped,
                scan_spec(content@, segment_id, verify_only, start) == scan_spec(
                    content@,
                    segment_id,
                    verify_only,
                    ScanState {
                        offset: offset as int,
                        records: result.records_recovered - r0,
                        skipped: result.corrupted_skipped - s0,
                        last: result.last_valid_position,
                    },
                ),
            decreases file_size - offset,
        {
            if self.verify_record(content, offset) {
                assert(offset < content@.len());
                let o = offset as usize;
                assert(o == offset);
                let length = read_be64(content, o);
                assert(offset + 8 + length <= content@.len());
                if !verify_only {
                    result.records_recovered = result.records_recovered + 1;
                }
                result.last_valid_position = CheckpointPosition {
                    segment_id,
                    offset: offset + 8 + length,
                    last_record_start: offset,
                };
                offset = offset + 8 + length;
            } else {
                result.corrupted_skipped = result.corrupted_skipped + 1;
                offset = offset + 1;
            }
        }
        if offset < file_size && !verify_only {
            Some(offset)
        } else {
            None
        }
    }
}

impl RecoveryManager {
    /// Where a checkpoint is to be saved after a full scan that found
    /// `result`: at the last valid position, unless the mode is
    /// verify-only, which saves nothing.
    pub fn checkpoint_after_scan(&self, result: &RecoveryResult) -> (r: Option<CheckpointPosition>)
        ensures
            self.spec_mode() == RecoveryMode::VerifyOnly ==> r is None,
            self.spec_mode() != RecoveryMode::VerifyOnly ==> r == Some(result.last_valid_position),
    {
        if self.mode == RecoveryMode::VerifyOnly {
            None
        } else {
            Some(result.last_valid_position)
        }
    }

    /// The outcome of an incremental recovery from `checkpoint`, given the
    /// bytes `content` of the segment it names: when a record starts at the
    /// checkpoint's position, the recovery is done there, with nothing
    /// counted; otherwise (`None`) a full scan is needed.
    pub fn incremental_result(&self, checkpoint: &Checkpoint, content: &[u8]) -> (r: Option<RecoveryResult>)
        ensures
            record_valid(content@, checkpoint.last_valid_position.offset as int) ==> r == Some(
                RecoveryResult {
                    records_recovered: 0,
                    corrupted_skipped: 0,
                    segments_truncated: 0,
                    last_valid_position: checkpoint.last_valid_position,
                    duration_ms: 0,
                },
            ),
            !record_valid(content@, checkpoint.last_valid_position.offset as int) ==> r is None,
    {
        if !self.verify_record(content, checkpoint.last_valid_position.offset) {
            return None;
        }
        Some(
            RecoveryResult {
                records_recovered: 0,
                corrupted_skipped: 0,
                segments_truncated: 0,
                last_valid_position: checkpoint.last_valid_position,
                duration_ms: 0,
            },
        )
    }
}

fn ends_with_seg(s: &str) -> (r: bool)
    ensures
        r == (s@.len() >= 4 && s@.subrange(s@.len() - 4, s@.len() as int) == ".seg"@),
{
    proof {
        reveal_strlit(".seg");
    }
    let n = s.unicode_len();
    if n < 4 {
        return false;
    }
    let r = s.get_char(n - 4) == '.' && s.get_char(n - 3) == 's' && s.get_char(n - 2) == 'e'
        && s.get_char(n - 1) == 'g';
    proof {
        let t = s@.subrange(n - 4, n as int);
        if r {
            assert(t =~= ".seg"@);
        } else if t == ".seg"@ {
            assert(t[0] == '.' && t[1] == 's' && t[2] == 'e' && t[3] == 'g');
        }
    }
    r
}

} // verus!
