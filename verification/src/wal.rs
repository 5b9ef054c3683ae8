//! The WAL: an ordered set of segments, the next offset to hand out, and
//! the decisions that `create`, `open`, `write`, `read`, `flush`, `close` and
//! `prune_segments` make about them.
//!
//! The segment files live outside the library: a `Wal` says which file to
//! create, which bytes to append where, which file position to read, and
//! which files to delete, and it is told what the caller found on disk.
//! Alongside the bookkeeping it keeps, as a model, the records written
//! through it, so that what a read returns can be stated.
use crate::config::{Config, PersistenceMode};
use crate::error::Error;
use crate::paths::{join, join_spec};
use crate::segment::{
    lemma_record_at_extend, record_at, record_bytes, segment_file_name, segment_file_name_spec,
    LogSegment, HEADER_SIZE,
};
use vstd::prelude::*;

pub mod commit_coordinator;
pub mod coordinators;
pub mod recovery;
pub mod segment_coordinator;
pub mod sync_strategy;
pub mod wal_manager;

verus! {

/// The index of the last base offset that is at most `o`, or -1 when every
/// base offset is larger. On ascending base offsets this is the segment that
/// holds `o`.
pub open spec fn floor_index(bases: Seq<u64>, o: u64) -> int
    decreases bases.len(),
{
    if bases.len() == 0 {
        -1
    } else if bases.last() <= o {
        bases.len() - 1
    } else {
        floor_index(bases.drop_last(), o)
    }
}

pub open spec fn strictly_ascending(bases: Seq<u64>) -> bool {
    forall|i: int, j: int| 0 <= i < j < bases.len() ==> bases[i] < bases[j]
}

pub proof fn lemma_floor_props(bases: Seq<u64>, o: u64)
    ensures
        -1 <= floor_index(bases, o) < bases.len(),
        floor_index(bases, o) >= 0 ==> bases[floor_index(bases, o)] <= o,
        forall|j: int| floor_index(bases, o) < j < bases.len() ==> bases[j] > o,
    decreases bases.len(),
{
    if bases.len() > 0 && bases.last() > o {
        lemma_floor_props(bases.drop_last(), o);
        assert forall|j: int| floor_index(bases, o) < j < bases.len() implies bases[j] > o by {
            if j < bases.len() - 1 {
                assert(bases.drop_last()[j] == bases[j]);
            }
        }
    }
}

/// The floor index is the only index whose base is at most `o` while every
/// later base exceeds `o`.
pub proof fn lemma_floor_unique(bases: Seq<u64>, o: u64, i: int)
    requires
        -1 <= i < bases.len(),
        i >= 0 ==> bases[i] <= o,
        forall|j: int| i < j < bases.len() ==> bases[j] > o,
    ensures
        floor_index(bases, o) == i,
{
    lemma_floor_props(bases, o);
    let f = floor_index(bases, o);
    if f > i {
        assert(bases[f] > o);
    } else if f < i {
        assert(bases[i] > o);
    }
}

/// The write-ahead log's state.
pub struct Wal {
    path: String,
    config: Config,
    segments: Vec<LogSegment>,
    next_offset: u64,
    closed: bool,
    records: Ghost<Map<u64, Seq<u8>>>,
}

impl Wal {
    pub closed spec fn spec_path(&self) -> Seq<char> {
        self.path@
    }

    pub closed spec fn spec_config(&self) -> Config {
        self.config
    }

    /// The segments, in ascending order of base offset; the last is the
    /// active one, which writes go to.
    pub closed spec fn spec_segments(&self) -> Seq<LogSegment> {
        self.segments@
    }

    /// The offset that the next write returns.
    pub closed spec fn spec_next_offset(&self) -> u64 {
        self.next_offset
    }

    pub closed spec fn spec_closed(&self) -> bool {
        self.closed
    }

    /// The records written through this `Wal` that are still retained,
    /// by the offset that their write returned.
    pub closed spec fn records(&self) -> Map<u64, Seq<u8>> {
        self.records@
    }

    pub open spec fn bases(&self) -> Seq<u64> {
        self.spec_segments().map_values(|s: LogSegment| s.spec_base_offset())
    }

    pub open spec fn active(&self) -> LogSegment {
        self.spec_segments().last()
    }

    /// The offsets handed out so far follow on from the active segment's
    /// bytes; this holds for a WAL made by `create` and is kept by every
    /// write.
    pub open spec fn consistent(&self) -> bool {
        self.spec_next_offset() == self.active().spec_base_offset() + self.active().spec_size()
    }

    /// No segment ends after the next offset, and the active one ends
    /// there: true of a WAL made by `create` and kept by every operation.
    pub open spec fn tidy(&self) -> bool {
        &&& self.consistent()
        &&& forall|i: int|
            0 <= i < self.spec_segments().len() ==> (#[trigger] self.spec_segments()[i]).spec_base_offset()
                + self.spec_segments()[i].spec_size() <= self.spec_next_offset()
    }

    /// The segment index that a read of `o` consults.
    pub open spec fn segment_for(&self, o: u64) -> int {
        floor_index(self.bases(), o)
    }

    pub open spec fn wf(&self) -> bool {
        &&& self.spec_segments().len() >= 1
        &&& strictly_ascending(self.bases())
        &&& forall|i: int| 0 <= i < self.spec_segments().len() ==> (#[trigger] self.spec_segments()[i]).wf()
        &&& self.spec_next_offset() >= self.active().spec_base_offset()
        &&& !self.consistent() ==> self.records().dom().is_empty()
        &&& forall|o: u64| #[trigger]
            self.records().contains_key(o) ==> {
                &&& o < self.spec_next_offset()
                &&& self.segment_for(o) >= 0
                &&& record_at(
                    self.spec_segments()[self.segment_for(o)].content(),
                    o - self.spec_segments()[self.segment_for(o)].spec_base_offset(),
                ) == Some(self.records()[o])
            }
    }

    /// The file path of the segment starting at `base`.
    pub open spec fn segment_path_spec(&self, base: u64) -> Seq<char> {
        join_spec(self.spec_path(), segment_file_name_spec(base))
    }

    /// A new WAL in directory `path`, with one empty segment at offset 0.
    /// Fails, as `Config::validate` does, on an invalid configuration.
    pub fn create(path: String, config: Config) -> (r: Result<Wal, Error>)
        ensures
            r is Ok <==> config.is_valid(),
            r is Err ==> r matches Err(Error::Config { .. }),
            r matches Ok(w) ==> {
                &&& w.wf()
                &&& w.consistent()
                &&& w.tidy()
                &&& w.spec_path() == path@
                &&& w.spec_config() == config
                &&& !w.spec_closed()
                &&& w.spec_next_offset() == 0
                &&& w.spec_segments().len() == 1
                &&& w.active().spec_base_offset() == 0
                &&& w.active().spec_size() == 0
                &&& w.active().spec_path() == w.segment_path_spec(0)
                &&& w.records() == Map::<u64, Seq<u8>>::empty()
            },
    {
        config.validate()?;
        let seg_path = join(path.as_str(), segment_file_name(0).as_str());
        let seg = LogSegment::create(seg_path, 0);
        let mut segments: Vec<LogSegment> = Vec::new();
        segments.push(seg);
        let w = Wal {
            path,
            config,
            segments,
            next_offset: 0,
            closed: false,
            records: Ghost(Map::empty()),
        };
        assert(w.bases() =~= seq![0u64]);
        Ok(w)
    }

    /// The WAL in directory `path`, made of the segment files that were found
    /// there, in the order they were found; of two files with the same base
    /// offset, the later one is kept. The next offset is the largest end of
    /// any found segment. When no file was found, the WAL starts with one
    /// empty segment at offset 0, whose file the caller creates. The
    /// configuration is the default.
    pub fn open(path: String, found: Vec<LogSegment>) -> (r: Wal)
        requires
            forall|i: int| 0 <= i < found@.len() ==> (#[trigger] found@[i]).wf(),
            forall|i: int|
                0 <= i < found@.len() ==> (#[trigger] found@[i]).spec_base_offset()
                    + found@[i].spec_size() <= u64::MAX,
        ensures
            r.wf(),
            r.spec_path() == path@,
            !r.spec_closed(),
            r.spec_config().spec_segment_size() == crate::config::DEFAULT_SEGMENT_SIZE,
            r.spec_config().spec_persistence_mode() == PersistenceMode::Immediate,
            r.records() == Map::<u64, Seq<u8>>::empty(),
            r.spec_next_offset() == max_end(found@),
            found@.len() >= 1 ==> r.spec_segments() == sorted_segments(found@),
            found@.len() == 0 ==> {
                &&& r.spec_segments().len() == 1
                &&& r.active().spec_base_offset() == 0
                &&& r.active().spec_size() == 0
                &&& r.active().content() == Seq::<u8>::empty()
                &&& r.active().spec_path() == r.segment_path_spec(0)
            },
    {
        let ghost was_empty = found@.len() == 0;
        let mut found = found;
        if found.len() == 0 {
            let seg_path = join(path.as_str(), segment_file_name(0).as_str());
            found.push(LogSegment::create(seg_path, 0));
        }
        let ghost all = found@;
        let mut segments: Vec<LogSegment> = Vec::new();
        let mut max_offset: u64 = 0;
        let mut n: usize = 0;
        let total = found.len();
        while found.len() > 0
            invariant
                n + found@.len() == total,
                total == all.len(),
                found@ == all.subrange(n as int, total as int),
                forall|i: int| 0 <= i < all.len() ==> (#[trigger] all[i]).wf(),
                forall|i: int|
                    0 <= i < all.len() ==> (#[trigger] all[i]).spec_base_offset()
                        + all[i].spec_size() <= u64::MAX,
                max_offset == max_end(all.take(n as int)),
                segments@ == sorted_segments(all.take(n as int)),
                strictly_ascending(base_offsets(segments@)),
                forall|i: int| 0 <= i < segments@.len() ==> (#[trigger] segments@[i]).wf(),
            decreases found@.len(),
        {
            let seg = found.remove(0);
            assert(seg == all[n as int]);
            let end = seg.base_offset() + seg.size();
            proof {
                assert(all.take(n + 1) =~= all.take(n as int).push(seg));
                assert(all.take(n + 1).drop_last() =~= all.take(n as int));
            }
            if end > max_offset {
                max_offset = end;
            }
            insert_segment(&mut segments, seg);
            n = n + 1;
            assert(found@ =~= all.subrange(n as int, total as int));
        }
        assert(all.take(n as int) =~= all);
        proof {
            lemma_sorted_segments_nonempty(all);
            lemma_max_end_ge(all);
            lemma_sorted_segments_from(all, segments@.len() - 1);
        }
        let config = Config::default();
        let w = Wal {
            path,
            config,
            segments,
            next_offset: max_offset,
            closed: false,
            records: Ghost(Map::empty()),
        };
        assert(w.bases() =~= base_offsets(w.segments@));
        proof {
            if was_empty {
                let e = Seq::<LogSegment>::empty();
                assert(all.drop_last() =~= e);
                assert(max_end(e) == 0);
                assert(sorted_segments(e) == e);
                lemma_insert_position(e, 0, 0);
                assert(sorted_segments(all) =~= e.insert(0, all[0]));
            }
        }
        w
    }

    /// The directory of the WAL.
    pub fn path(&self) -> (r: &str)
        ensures
            r@ == self.spec_path(),
    {
        self.path.as_str()
    }

    /// The configuration.
    pub fn config(&self) -> (r: &Config)
        ensures
            *r == self.spec_config(),
    {
        &self.config
    }

    /// How many segments there are.
    pub fn segment_count(&self) -> (r: usize)
        ensures
            r == self.spec_segments().len(),
    {
        self.segments.len()
    }

    /// The segment at position `i`.
    pub fn segment(&self, i: usize) -> (r: &LogSegment)
        requires
            i < self.spec_segments().len(),
        ensures
            *r == self.spec_segments()[i as int],
    {
        &self.segments[i]
    }

    /// The position of the active segment.
    pub fn active_index(&self) -> (r: usize)
        requires
            self.wf(),
        ensures
            r == self.spec_segments().len() - 1,
    {
        self.segments.len() - 1
    }

    /// The offset that the next write will return.
    pub fn next_offset(&self) -> (r: u64)
        ensures
            r == self.spec_next_offset(),
    {
        self.next_offset
    }

    /// Whether the WAL has been closed.
    pub fn is_closed(&self) -> (r: bool)
        ensures
            r == self.spec_closed(),
    {
        self.closed
    }

    /// The file path of the segment starting at `base`:
    /// `<dir>/<base as 20 digits>.log`.
    pub fn segment_path(&self, base: u64) -> (r: String)
        ensures
            r@ == self.segment_path_spec(base),
    {
        join(self.path.as_str(), segment_file_name(base).as_str())
    }

    /// Whether writing a record of `len` bytes first needs a new segment:
    /// the record would take the active segment past the configured size.
    /// Refused once the WAL is closed.
    pub fn prepare_write(&self, len: usize) -> (r: Result<bool, Error>)
        requires
            self.wf(),
            !self.spec_closed() ==> self.active().spec_size() + HEADER_SIZE + len <= u64::MAX,
        ensures
            self.spec_closed() ==> r matches Err(Error::Closed),
            !self.spec_closed() ==> r == Ok::<bool, Error>(
                self.active().spec_size() + HEADER_SIZE + len > self.spec_config().spec_segment_size(),
            ),
    {
        if self.closed {
            return Err(Error::Closed);
        }
        let size = self.segments[self.segments.len() - 1].size();
        let record_size = HEADER_SIZE as u64 + len as u64;
        Ok(size + record_size > self.config.segment_size() as u64)
    }

    /// Starts a new, empty active segment at the next offset, after its file
    /// was created; a segment already starting there is replaced. Returns
    /// the new segment's base offset.
    pub fn rotate(&mut self) -> (r: u64)
        requires
            old(self).wf(),
        ensures
            final(self).wf(),
            r == old(self).spec_next_offset(),
            final(self).active().spec_base_offset() == r,
            final(self).active().spec_size() == 0,
            final(self).active().spec_path() == old(self).segment_path_spec(r),
            final(self).spec_next_offset() == old(self).spec_next_offset(),
            final(self).records() == old(self).records(),
            final(self).spec_closed() == old(self).spec_closed(),
            final(self).spec_config() == old(self).spec_config(),
            final(self).spec_path() == old(self).spec_path(),
            old(self).consistent() ==> final(self).consistent(),
            old(self).tidy() ==> final(self).tidy(),
            old(self).active().spec_base_offset() == r ==> final(self).spec_segments()
                == old(self).spec_segments().drop_last().push(final(self).active()),
            old(self).active().spec_base_offset() != r ==> final(self).spec_segments()
                == old(self).spec_segments().push(final(self).active()),
    {
        let base = self.next_offset;
        let seg_path = self.segment_path(base);
        let seg = LogSegment::create(seg_path, base);
        let last = self.segments.len() - 1;
        let ghost old_self = *self;
        let ghost old_bases = self.bases();
        if self.segments[last].base_offset() == base {
            self.segments.pop();
            self.segments.push(seg);
            proof {
                assert(self.bases() =~= old_bases.drop_last().push(base));
                assert forall|o: u64| #[trigger] self.records().contains_key(o) implies {
                    &&& o < self.spec_next_offset()
                    &&& self.segment_for(o) >= 0
                    &&& record_at(
                        self.spec_segments()[self.segment_for(o)].content(),
                        o - self.spec_segments()[self.segment_for(o)].spec_base_offset(),
                    ) == Some(self.records()[o])
                } by {
                    assert(old_self.records().contains_key(o));
                    let f = floor_index(old_bases, o);
                    lemma_floor_props(old_bases, o);
                    assert(f != last);
                    lemma_floor_unique(self.bases(), o, f);
                    assert(self.spec_segments()[f] == old_self.spec_segments()[f]);
                }
                assert forall|i: int| 0 <= i < self.spec_segments().len() implies (
                #[trigger] self.spec_segments()[i]).wf() by {
                    if i < last {
                        assert(self.spec_segments()[i] == old_self.spec_segments()[i]);
                    }
                }
                assert(strictly_ascending(self.bases())) by {
                    assert forall|i: int, j: int| 0 <= i < j < self.bases().len() implies self.bases()[i]
                        < self.bases()[j] by {
                        assert(old_bases[i] < old_bases[j]);
                    }
                }
            }
        } else {
            self.segments.push(seg);
            proof {
                assert(self.bases() =~= old_bases.push(base));
                assert forall|o: u64| #[trigger] self.records().contains_key(o) implies {
                    &&& o < self.spec_next_offset()
                    &&& self.segment_for(o) >= 0
                    &&& record_at(
                        self.spec_segments()[self.segment_for(o)].content(),
                        o - self.spec_segments()[self.segment_for(o)].spec_base_offset(),
                    ) == Some(self.records()[o])
                } by {
                    assert(old_self.records().contains_key(o));
                    let f = floor_index(old_bases, o);
                    lemma_floor_props(old_bases, o);
                    lemma_floor_unique(self.bases(), o, f);
                    assert(self.spec_segments()[f] == old_self.spec_segments()[f]);
                }
                assert forall|i: int| 0 <= i < self.spec_segments().len() implies (
                #[trigger] self.spec_segments()[i]).wf() by {
                    if i <= last {
                        assert(self.spec_segments()[i] == old_self.spec_segments()[i]);
                    }
                }
                assert(strictly_ascending(self.bases())) by {
                    assert forall|i: int, j: int| 0 <= i < j < self.bases().len() implies self.bases()[i]
                        < self.bases()[j] by {
                        if j <= last {
                            assert(old_bases[i] < old_bases[j]);
                        } else {
                            assert(old_bases[i] <= old_bases[last as int]);
                        }
                    }
                }
            }
        }
        proof {
            if old_self.tidy() {
                assert forall|i: int| 0 <= i < self.spec_segments().len() implies (
                #[trigger] self.spec_segments()[i]).spec_base_offset() + self.spec_segments()[i].spec_size()
                    <= self.spec_next_offset() by {
                    if i < self.spec_segments().len() - 1 {
                        assert(self.spec_segments()[i] == old_self.spec_segments()[i]);
                    }
                }
            }
        }
        base
    }

    /// Records that the bytes of `encode_record(data)` were appended to the
    /// active segment's file. Returns the offset of the record: the next
    /// offset as it was; the next offset then follows the appended bytes.
    pub fn append(&mut self, data: &[u8]) -> (r: u64)
        requires
            old(self).wf(),
            old(self).active().spec_size() + HEADER_SIZE + data@.len() <= u64::MAX,
            old(self).active().spec_base_offset() + old(self).active().spec_size() + HEADER_SIZE
                + data@.len() <= u64::MAX,
        ensures
            final(self).wf(),
            r == old(self).spec_next_offset(),
            final(self).spec_next_offset() == old(self).active().spec_base_offset() + old(
                self,
            ).active().spec_size() + HEADER_SIZE + data@.len(),
            old(self).consistent() ==> final(self).spec_next_offset() == r + HEADER_SIZE + data@.len(),
            final(self).spec_segments().len() == old(self).spec_segments().len(),
            final(self).bases() == old(self).bases(),
            final(self).active().spec_size() == old(self).active().spec_size() + HEADER_SIZE
                + data@.len(),
            final(self).active().content() == old(self).active().content() + record_bytes(data@),
            final(self).spec_segments().drop_last() == old(self).spec_segments().drop_last(),
            final(self).spec_closed() == old(self).spec_closed(),
            final(self).spec_config() == old(self).spec_config(),
            final(self).spec_path() == old(self).spec_path(),
            final(self).consistent(),
            old(self).tidy() ==> final(self).tidy(),
            old(self).consistent() && data@.len() <= u32::MAX ==> final(self).records() == old(
                self,
            ).records().insert(r, data@),
            !(old(self).consistent() && data@.len() <= u32::MAX) ==> final(self).records() == old(
                self,
            ).records(),
    {
        let ghost old_self = *self;
        let ghost old_bases = self.bases();
        let ghost was_consistent = self.consistent();
        let offset = self.next_offset;
        let last = self.segments.len() - 1;
        let mut seg = self.segments.remove(last);
        let write_offset = seg.append(data);
        let ghost old_seg_size = old_self.active().spec_size();
        self.segments.push(seg);
        self.next_offset = write_offset + HEADER_SIZE as u64 + data.len() as u64;
        self.records = Ghost(
            if was_consistent && data@.len() <= u32::MAX {
                self.records@.insert(offset, data@)
            } else {
                self.records@
            },
        );
        proof {
            assert(self.segments@.drop_last() =~= old_self.segments@.drop_last());
            assert(self.bases() =~= old_bases);
            let new_last = self.spec_segments()[last as int];
            assert(new_last.content() == old_self.active().content() + record_bytes(data@));
            assert forall|o: u64| #[trigger] self.records().contains_key(o) implies {
                &&& o < self.spec_next_offset()
                &&& self.segment_for(o) >= 0
                &&& record_at(
                    self.spec_segments()[self.segment_for(o)].content(),
                    o - self.spec_segments()[self.segment_for(o)].spec_base_offset(),
                ) == Some(self.records()[o])
            } by {
                if old_self.records().contains_key(o) {
                    assert(was_consistent);
                    assert(o < offset);
                    assert(self.records()[o] == old_self.records()[o]);
                    let f = floor_index(old_bases, o);
                    lemma_floor_props(old_bases, o);
                    assert(self.segment_for(o) == f);
                    if f < last {
                        assert(self.spec_segments()[f] == old_self.spec_segments().drop_last()[f]);
                        assert(old_self.spec_segments().drop_last()[f] == old_self.spec_segments()[f]);
                    } else {
                        lemma_record_at_extend(
                            old_self.active().content(),
                            o - old_self.active().spec_base_offset(),
                            record_bytes(data@),
                        );
                    }
                } else {
                    assert(o == offset);
                    lemma_floor_unique(old_bases, o, last as int);
                    assert(self.segment_for(o) == last);
                }
            }
            assert forall|i: int| 0 <= i < self.spec_segments().len() implies (
            #[trigger] self.spec_segments()[i]).wf() by {
                if i < last {
                    assert(self.spec_segments()[i] == old_self.spec_segments()[i]);
                }
            }
            if old_self.tidy() {
                assert forall|i: int| 0 <= i < self.spec_segments().len() implies (
                #[trigger] self.spec_segments()[i]).spec_base_offset() + self.spec_segments()[i].spec_size()
                    <= self.spec_next_offset() by {
                    if i < last {
                        assert(self.spec_segments()[i] == old_self.spec_segments()[i]);
                    }
                }
            }
        }
        offset
    }

    /// Whether the records just written must be synced before the write
    /// returns: the persistence mode is `Immediate`.
    pub fn write_needs_sync(&self) -> (r: bool)
        ensures
            r == (self.spec_config().spec_persistence_mode() == PersistenceMode::Immediate),
    {
        self.config.persistence_mode() == PersistenceMode::Immediate
    }

    /// Where the record at `offset` is: the segment whose range holds it
    /// and the position inside that segment's file. Refused once closed,
    /// when no segment starts at or before `offset`, and when the segment's
    /// `locate` refuses it. A record written through this WAL and still
    /// retained is found where it was written.
    pub fn read(&self, offset: u64) -> (r: Result<(usize, u64), Error>)
        requires
            self.wf(),
        ensures
            self.spec_closed() ==> r matches Err(Error::Closed),
            !self.spec_closed() && self.segment_for(offset) == -1 ==> (r matches Err(
                Error::SegmentNotFound { offset: o },
            ) && o == offset),
            !self.spec_closed() && self.segment_for(offset) >= 0 ==> {
                let s = self.spec_segments()[self.segment_for(offset)];
                &&& r is Ok <==> s.locate_spec(offset) is Some
                &&& r matches Ok((i, p)) ==> i == self.segment_for(offset) && Some(p as int)
                    == s.locate_spec(offset)
                &&& r is Err ==> (r matches Err(Error::Corruption { offset: o, .. }) && o == offset)
            },
            !self.spec_closed() && self.records().contains_key(offset) ==> (r matches Ok((i, p))
                && record_at(self.spec_segments()[i as int].content(), p as int) == Some(
                self.records()[offset],
            )),
    {
        if self.closed {
            return Err(Error::Closed);
        }
        let idx = self.find_segment(offset);
        match idx {
            None => Err(Error::SegmentNotFound { offset }),
            Some(i) => {
                proof {
                    lemma_floor_props(self.bases(), offset);
                    let s = self.spec_segments()[i as int];
                    assert(s.wf());
                    if self.records().contains_key(offset) {
                        assert(record_at(s.content(), offset - s.spec_base_offset()) is Some);
                    }
                }
                let p = self.segments[i].locate(offset)?;
                Ok((i, p))
            },
        }
    }

    /// The position of the segment whose range holds `offset`.
    fn find_segment(&self, offset: u64) -> (r: Option<usize>)
        requires
            self.wf(),
        ensures
            r is None <==> self.segment_for(offset) == -1,
            r matches Some(i) ==> i == self.segment_for(offset),
    {
        let mut i = self.segments.len();
        while i > 0
            invariant
                i <= self.spec_segments().len(),
                self.wf(),
                forall|j: int| i <= j < self.spec_segments().len() ==> self.bases()[j] > offset,
            decreases i,
        {
            if self.segments[i - 1].base_offset() <= offset {
                proof {
                    lemma_floor_unique(self.bases(), offset, i - 1);
                }
                return Some(i - 1);
            }
            i = i - 1;
        }
        proof {
            lemma_floor_unique(self.bases(), offset, -1);
        }
        None
    }

    /// Where written records are to be synced: the position of the active
    /// segment. Refused once closed.
    pub fn flush(&self) -> (r: Result<usize, Error>)
        requires
            self.wf(),
        ensures
            self.spec_closed() ==> r matches Err(Error::Closed),
            !self.spec_closed() ==> r == Ok::<usize, Error>((self.spec_segments().len() - 1) as usize),
    {
        if self.closed {
            return Err(Error::Closed);
        }
        Ok(self.segments.len() - 1)
    }

    /// Closes the WAL: every later write, read, flush and prune is refused.
    /// Closing a closed WAL is allowed.
    pub fn close(&mut self) -> (r: Result<(), Error>)
        ensures
            r is Ok,
            final(self).spec_closed(),
            final(self).spec_segments() == old(self).spec_segments(),
            final(self).spec_next_offset() == old(self).spec_next_offset(),
            final(self).records() == old(self).records(),
            final(self).spec_path() == old(self).spec_path(),
            final(self).spec_config() == old(self).spec_config(),
            old(self).wf() ==> final(self).wf(),
            old(self).tidy() ==> final(self).tidy(),
    {
        let ghost old_self = *self;
        self.closed = true;
        proof {
            if old_self.wf() {
                assert(self.bases() == old_self.bases());
                assert forall|o: u64| #[trigger] self.records().contains_key(o) implies {
                    &&& o < self.spec_next_offset()
                    &&& self.segment_for(o) >= 0
                    &&& record_at(
                        self.spec_segments()[self.segment_for(o)].content(),
                        o - self.spec_segments()[self.segment_for(o)].spec_base_offset(),
                    ) == Some(self.records()[o])
                } by {
                    assert(old_self.records().contains_key(o));
                }
                assert forall|i: int| 0 <= i < self.spec_segments().len() implies (
                #[trigger] self.spec_segments()[i]).wf() by {
                    assert(old_self.spec_segments()[i].wf());
                }
            }
        }
        Ok(())
    }

    /// Drops the segments that lie wholly before `retain_min_offset`: every
    /// segment before the one that holds that offset. The active segment
    /// always stays. Returns the base offsets of the dropped segments, in
    /// ascending order, for their files to be deleted. Refused once closed.
    pub fn prune_segments(&mut self, retain_min_offset: u64) -> (r: Result<Vec<u64>, Error>)
        requires
            old(self).wf(),
        ensures
            final(self).wf(),
            old(self).spec_closed() ==> (r matches Err(Error::Closed) && *final(self) == *old(self)),
            !old(self).spec_closed() ==> r is Ok,
            r matches Ok(v) ==> {
                let f = old(self).segment_for(retain_min_offset);
                let k = if f < 0 { 0 } else { f };
                &&& v@ == old(self).bases().take(k)
                &&& final(self).spec_segments() == old(self).spec_segments().skip(k)
                &&& final(self).spec_next_offset() == old(self).spec_next_offset()
                &&& final(self).spec_closed() == old(self).spec_closed()
                &&& final(self).spec_config() == old(self).spec_config()
                &&& final(self).spec_path() == old(self).spec_path()
                &&& (old(self).consistent() ==> final(self).consistent())
                &&& (old(self).tidy() ==> final(self).tidy())
                &&& final(self).records() == old(self).records().restrict(
                    Set::new(|o: u64| old(self).segment_for(o) >= k),
                )
                &&& f >= 0 ==> forall|o: u64|
                    o < old(self).bases()[f] ==> #[trigger] final(self).segment_for(o) == -1
            },
    {
        if self.closed {
            return Err(Error::Closed);
        }
        proof {
            lemma_floor_props(self.bases(), retain_min_offset);
        }
        let k = match self.find_segment(retain_min_offset) {
            None => 0,
            Some(i) => i,
        };
        let ghost old_self = *self;
        let ghost old_bases = self.bases();
        let kept = self.segments.split_off(k);
        let mut removed: Vec<u64> = Vec::new();
        let mut j: usize = 0;
        while j < self.segments.len()
            invariant
                j <= self.segments@.len(),
                self.segments@ == old_self.spec_segments().take(k as int),
                k <= old_bases.len(),
                old_bases == old_self.bases(),
                removed@ == old_bases.take(j as int),
            decreases self.segments@.len() - j,
        {
            removed.push(self.segments[j].base_offset());
            j = j + 1;
            assert(removed@ =~= old_bases.take(j as int));
        }
        self.segments = kept;
        let ghost keep = Set::new(|o: u64| floor_index(old_bases, o) >= k);
        self.records = Ghost(self.records@.restrict(keep));
        proof {
            assert(self.bases() =~= old_bases.skip(k as int));
            assert forall|o: u64| #[trigger] self.records().contains_key(o) implies {
                &&& o < self.spec_next_offset()
                &&& self.segment_for(o) >= 0
                &&& record_at(
                    self.spec_segments()[self.segment_for(o)].content(),
                    o - self.spec_segments()[self.segment_for(o)].spec_base_offset(),
                ) == Some(self.records()[o])
            } by {
                assert(old_self.records().contains_key(o));
                let f = floor_index(old_bases, o);
                assert(f >= k);
                lemma_floor_props(old_bases, o);
                assert forall|j: int| f - k < j < self.bases().len() implies self.bases()[j] > o by {
                    assert(self.bases()[j] == old_bases[j + k]);
                }
                assert(self.bases()[f - k] == old_bases[f]);
                lemma_floor_unique(self.bases(), o, f - k);
                assert(self.spec_segments()[f - k] == old_self.spec_segments()[f]);
                assert(self.records()[o] == old_self.records()[o]);
            }
            assert forall|i: int| 0 <= i < self.spec_segments().len() implies (
            #[trigger] self.spec_segments()[i]).wf() by {
                assert(self.spec_segments()[i] == old_self.spec_segments()[i + k]);
            }
            if old_self.tidy() {
                assert forall|i: int| 0 <= i < self.spec_segments().len() implies (
                #[trigger] self.spec_segments()[i]).spec_base_offset() + self.spec_segments()[i].spec_size()
                    <= self.spec_next_offset() by {
                    assert(self.spec_segments()[i] == old_self.spec_segments()[i + k]);
                }
            }
            let f = floor_index(old_bases, retain_min_offset);
            if f >= 0 {
                assert forall|o: u64| o < old_bases[f] implies #[trigger] self.segment_for(o) == -1 by {
                    lemma_floor_unique(self.bases(), o, -1);
                }
            }
            assert(old_bases.take(k as int) =~= removed@);
        }
        Ok(removed)
    }
}

/// The largest `base_offset + size` over `segs` (0 for none).
pub open spec fn max_end(segs: Seq<LogSegment>) -> u64
    decreases segs.len(),
{
    if segs.len() == 0 {
        0
    } else {
        let e = segs.last().spec_base_offset() + segs.last().spec_size();
        let m = max_end(segs.drop_last());
        if e > m && e <= u64::MAX {
            e as u64
        } else {
            m
        }
    }
}

proof fn lemma_max_end_ge(segs: Seq<LogSegment>)
    requires
        forall|i: int|
            0 <= i < segs.len() ==> (#[trigger] segs[i]).spec_base_offset() + segs[i].spec_size()
                <= u64::MAX,
    ensures
        forall|i: int|
            0 <= i < segs.len() ==> (#[trigger] segs[i]).spec_base_offset() + segs[i].spec_size()
                <= max_end(segs),
    decreases segs.len(),
{
    if segs.len() > 0 {
        lemma_max_end_ge(segs.drop_last());
        assert forall|i: int| 0 <= i < segs.len() implies (#[trigger] segs[i]).spec_base_offset()
            + segs[i].spec_size() <= max_end(segs) by {
            if i < segs.len() - 1 {
                assert(segs[i] == segs.drop_last()[i]);
            }
        }
    }
}

/// The base offsets of `segs`.
pub open spec fn base_offsets(segs: Seq<LogSegment>) -> Seq<u64> {
    segs.map_values(|s: LogSegment| s.spec_base_offset())
}

/// How many leading segments of `segs` start before `b`.
pub open spec fn insert_position(segs: Seq<LogSegment>, b: u64) -> int
    decreases segs.len(),
{
    if segs.len() == 0 {
        0
    } else if segs[0].spec_base_offset() < b {
        1 + insert_position(segs.drop_first(), b)
    } else {
        0
    }
}

/// `segs` with `s` put in its place by base offset, replacing a segment
/// with the same base offset.
pub open spec fn insert_sorted(segs: Seq<LogSegment>, s: LogSegment) -> Seq<LogSegment> {
    let p = insert_position(segs, s.spec_base_offset());
    if p < segs.len() && segs[p].spec_base_offset() == s.spec_base_offset() {
        segs.update(p, s)
    } else {
        segs.insert(p, s)
    }
}

/// The segments `found` put in ascending order of base offset, each found
/// segment replacing an earlier one with the same base offset.
pub open spec fn sorted_segments(found: Seq<LogSegment>) -> Seq<LogSegment>
    decreases found.len(),
{
    if found.len() == 0 {
        Seq::empty()
    } else {
        insert_sorted(sorted_segments(found.drop_last()), found.last())
    }
}

proof fn lemma_insert_position(segs: Seq<LogSegment>, b: u64, p: int)
    requires
        0 <= p <= segs.len(),
        forall|i: int| 0 <= i < p ==> (#[trigger] segs[i]).spec_base_offset() < b,
        p < segs.len() ==> segs[p].spec_base_offset() >= b,
    ensures
        insert_position(segs, b) == p,
    decreases segs.len(),
{
    if segs.len() > 0 && p > 0 {
        assert forall|i: int| 0 <= i < p - 1 implies (#[trigger] segs.drop_first()[i]).spec_base_offset() < b by {
            assert(segs.drop_first()[i] == segs[i + 1]);
        }
        lemma_insert_position(segs.drop_first(), b, p - 1);
    }
}

proof fn lemma_insert_position_bounds(segs: Seq<LogSegment>, b: u64)
    ensures
        0 <= insert_position(segs, b) <= segs.len(),
    decreases segs.len(),
{
    if segs.len() > 0 {
        lemma_insert_position_bounds(segs.drop_first(), b);
    }
}

proof fn lemma_insert_sorted_len(segs: Seq<LogSegment>, s: LogSegment)
    ensures
        insert_sorted(segs, s).len() >= 1,
        insert_sorted(segs, s).len() >= segs.len(),
        insert_sorted(segs, s).len() <= segs.len() + 1,
{
    lemma_insert_position_bounds(segs, s.spec_base_offset());
}

proof fn lemma_sorted_segments_nonempty(found: Seq<LogSegment>)
    ensures
        found.len() >= 1 ==> sorted_segments(found).len() >= 1,
    decreases found.len(),
{
    if found.len() >= 1 {
        lemma_insert_sorted_len(sorted_segments(found.drop_last()), found.last());
    }
}

proof fn lemma_sorted_segments_from(found: Seq<LogSegment>, i: int)
    requires
        0 <= i < sorted_segments(found).len(),
    ensures
        exists|j: int| 0 <= j < found.len() && found[j] == sorted_segments(found)[i],
    decreases found.len(),
{
    let prev = sorted_segments(found.drop_last());
    let s = found.last();
    let p = insert_position(prev, s.spec_base_offset());
    let r = sorted_segments(found);
    lemma_insert_position_bounds(prev, s.spec_base_offset());
    if r[i] == s {
        assert(found[found.len() - 1] == r[i]);
    } else {
        let pi = if p < prev.len() && prev[p].spec_base_offset() == s.spec_base_offset() {
            i
        } else if i < p {
            i
        } else {
            i - 1
        };
        assert(r[i] == prev[pi]);
        lemma_sorted_segments_from(found.drop_last(), pi);
        let j = choose|j: int| 0 <= j < found.drop_last().len() && found.drop_last()[j] == prev[pi];
        assert(found[j] == r[i]);
    }
}

/// Inserts `seg` into the ascending `segments`, replacing a segment with the
/// same base offset.
fn insert_segment(segments: &mut Vec<LogSegment>, seg: LogSegment)
    requires
        seg.wf(),
        strictly_ascending(base_offsets(old(segments)@)),
        forall|i: int| 0 <= i < old(segments)@.len() ==> (#[trigger] old(segments)@[i]).wf(),
    ensures
        final(segments)@ == insert_sorted(old(segments)@, seg),
        strictly_ascending(base_offsets(final(segments)@)),
        forall|i: int| 0 <= i < final(segments)@.len() ==> (#[trigger] final(segments)@[i]).wf(),
{
    let b = seg.base_offset();
    let mut p: usize = 0;
    while p < segments.len() && segments[p].base_offset() < b
        invariant
            p <= segments@.len(),
            forall|i: int| 0 <= i < p ==> (#[trigger] segments@[i]).spec_base_offset() < b,
        decreases segments@.len() - p,
    {
        p = p + 1;
    }
    let ghost old_segs = segments@;
    proof {
        lemma_insert_position(old_segs, b, p as int);
    }
    let ghost ob = base_offsets(old_segs);
    if p < segments.len() && segments[p].base_offset() == b {
        segments.remove(p);
        segments.insert(p, seg);
        proof {
            assert(segments@ =~= old_segs.update(p as int, seg));
            assert(base_offsets(segments@) =~= ob);
            assert forall|i: int| 0 <= i < segments@.len() implies (#[trigger] segments@[i]).wf() by {
                if i != p {
                    assert(segments@[i] == old_segs[i]);
                }
            }
        }
    } else {
        segments.insert(p, seg);
        proof {
            assert(segments@ =~= old_segs.insert(p as int, seg));
            let nb = base_offsets(segments@);
            assert forall|i: int, j: int| 0 <= i < j < segments@.len() implies nb[i] < nb[j] by {
                if j < p {
                    assert(ob[i] < ob[j]);
                } else if j == p {
                    assert(nb[i] == ob[i]);
                } else if i < p {
                    assert(ob[i] < b);
                    if j - 1 > p {
                        assert(ob[p as int] < ob[j - 1]);
                    }
                } else if i == p {
                    if j - 1 > p {
                        assert(ob[p as int] < ob[j - 1]);
                    }
                } else {
                    assert(ob[i - 1] < ob[j - 1]);
                }
            }
            assert forall|i: int| 0 <= i < segments@.len() implies (#[trigger] segments@[i]).wf() by {
                if i < p {
                    assert(segments@[i] == old_segs[i]);
                } else if i > p {
                    assert(segments@[i] == old_segs[i - 1]);
                }
            }
        }
    }
}

/// Reads find what was written: a record written through the WAL and still
/// retained lies in the segment that a read of its offset consults, inside
/// that segment's bytes, and the record found there holds the written data.
pub proof fn lemma_retained_record_readable(w: Wal, o: u64)
    requires
        w.wf(),
        w.records().contains_key(o),
    ensures
        w.segment_for(o) >= 0,
        w.spec_segments()[w.segment_for(o)].locate_spec(o) == Some(
            o - w.spec_segments()[w.segment_for(o)].spec_base_offset(),
        ),
        record_at(
            w.spec_segments()[w.segment_for(o)].content(),
            o - w.spec_segments()[w.segment_for(o)].spec_base_offset(),
        ) == Some(w.records()[o]),
{
    let i = w.segment_for(o);
    lemma_floor_props(w.bases(), o);
    assert(w.bases()[i] == w.spec_segments()[i].spec_base_offset());
    assert(w.spec_segments()[i].wf());
}

/// Pruning keeps what is to be retained: a record at or after the offset to
/// retain lies in the segment holding that offset or in a later one, which
/// `prune_segments` keeps.
pub proof fn lemma_prune_keeps_later_records(w: Wal, retain: u64, o: u64)
    requires
        w.wf(),
        w.records().contains_key(o),
        retain <= o,
    ensures
        w.segment_for(o) >= (if w.segment_for(retain) < 0 {
            0
        } else {
            w.segment_for(retain)
        }),
{
    lemma_floor_props(w.bases(), o);
    lemma_floor_props(w.bases(), retain);
    let f1 = w.segment_for(retain);
    let f2 = w.segment_for(o);
    if f1 > f2 {
        assert(w.bases()[f1] <= retain);
        assert(w.bases()[f1] > o);
    }
}

/// Putting segments that already ascend by base offset in order leaves
/// them as they are.
proof fn lemma_sorted_segments_ascending(s: Seq<LogSegment>)
    requires
        strictly_ascending(base_offsets(s)),
    ensures
        sorted_segments(s) == s,
    decreases s.len(),
{
    if s.len() > 0 {
        let d = s.drop_last();
        let b = base_offsets(s);
        assert(strictly_ascending(base_offsets(d))) by {
            assert forall|i: int, j: int| 0 <= i < j < base_offsets(d).len() implies base_offsets(d)[i]
                < base_offsets(d)[j] by {
                assert(base_offsets(d)[i] == b[i] && base_offsets(d)[j] == b[j]);
            }
        }
        lemma_sorted_segments_ascending(d);
        assert forall|i: int| 0 <= i < d.len() implies (#[trigger] d[i]).spec_base_offset() < s.last().spec_base_offset() by {
            assert(b[i] < b[s.len() - 1]);
        }
        lemma_insert_position(d, s.last().spec_base_offset(), d.len() as int);
        assert(d.insert(d.len() as int, s.last()) =~= s);
    }
}

/// The largest end of segments that all end at or before `n` is at most `n`.
proof fn lemma_max_end_le(segs: Seq<LogSegment>, n: u64)
    requires
        forall|i: int| 0 <= i < segs.len() ==> (#[trigger] segs[i]).spec_base_offset() + segs[i].spec_size() <= n,
    ensures
        max_end(segs) <= n,
    decreases segs.len(),
{
    if segs.len() > 0 {
        assert forall|i: int| 0 <= i < segs.drop_last().len() implies (#[trigger] segs.drop_last()[i]).spec_base_offset()
            + segs.drop_last()[i].spec_size() <= n by {
            assert(segs.drop_last()[i] == segs[i]);
        }
        lemma_max_end_le(segs.drop_last(), n);
    }
}

/// Putting a segment in its place keeps segments ascending by base offset.
proof fn lemma_insert_sorted_ascending(segs: Seq<LogSegment>, s: LogSegment)
    requires
        strictly_ascending(base_offsets(segs)),
    ensures
        strictly_ascending(base_offsets(insert_sorted(segs, s))),
{
    let b = s.spec_base_offset();
    let p = insert_position(segs, b);
    lemma_insert_position_bounds(segs, b);
    lemma_insert_position_props(segs, b);
    let ob = base_offsets(segs);
    let r = insert_sorted(segs, s);
    let nb = base_offsets(r);
    if p < segs.len() && segs[p].spec_base_offset() == b {
        assert(nb =~= ob);
    } else {
        assert forall|i: int, j: int| 0 <= i < j < nb.len() implies nb[i] < nb[j] by {
            if j < p {
                assert(nb[i] == ob[i] && nb[j] == ob[j]);
            } else if j == p {
                assert(nb[i] == ob[i]);
            } else if i < p {
                assert(nb[i] == ob[i] && nb[j] == ob[j - 1]);
                if j - 1 > p {
                    assert(ob[p] < ob[j - 1]);
                }
            } else if i == p {
                assert(nb[j] == ob[j - 1]);
                if j - 1 > p {
                    assert(ob[p] < ob[j - 1]);
                }
            } else {
                assert(nb[i] == ob[i - 1] && nb[j] == ob[j - 1]);
            }
        }
    }
}

proof fn lemma_insert_position_props(segs: Seq<LogSegment>, b: u64)
    ensures
        forall|i: int| 0 <= i < insert_position(segs, b) ==> (#[trigger] segs[i]).spec_base_offset() < b,
        insert_position(segs, b) < segs.len() ==> segs[insert_position(segs, b)].spec_base_offset() >= b,
    decreases segs.len(),
{
    if segs.len() > 0 && segs[0].spec_base_offset() < b {
        lemma_insert_position_props(segs.drop_first(), b);
        lemma_insert_position_bounds(segs.drop_first(), b);
        assert forall|i: int| 0 <= i < insert_position(segs, b) implies (#[trigger] segs[i]).spec_base_offset() < b by {
            if i > 0 {
                assert(segs[i] == segs.drop_first()[i - 1]);
            }
        }
    }
}

/// The found segments, put in order, ascend by base offset.
proof fn lemma_sorted_segments_ascending_result(found: Seq<LogSegment>)
    ensures
        strictly_ascending(base_offsets(sorted_segments(found))),
    decreases found.len(),
{
    if found.len() > 0 {
        lemma_sorted_segments_ascending_result(found.drop_last());
        lemma_insert_sorted_ascending(sorted_segments(found.drop_last()), found.last());
    } else {
        assert(base_offsets(sorted_segments(found)) =~= Seq::<u64>::empty());
    }
}

/// Every found segment's base offset is the base offset of a segment once
/// they are put in order.
proof fn lemma_sorted_segments_covers(found: Seq<LogSegment>, j: int)
    requires
        0 <= j < found.len(),
    ensures
        exists|i: int|
            0 <= i < sorted_segments(found).len() && (#[trigger] sorted_segments(found)[i]).spec_base_offset()
                == found[j].spec_base_offset(),
    decreases found.len(),
{
    let prev = sorted_segments(found.drop_last());
    let s = found.last();
    let p = insert_position(prev, s.spec_base_offset());
    let r = sorted_segments(found);
    lemma_insert_position_bounds(prev, s.spec_base_offset());
    let replaced = p < prev.len() && prev[p].spec_base_offset() == s.spec_base_offset();
    if j == found.len() - 1 {
        assert(r[p].spec_base_offset() == found[j].spec_base_offset());
    } else {
        assert(found.drop_last()[j] == found[j]);
        lemma_sorted_segments_covers(found.drop_last(), j);
        let i = choose|i: int|
            0 <= i < prev.len() && (#[trigger] prev[i]).spec_base_offset() == found[j].spec_base_offset();
        if replaced {
            assert(r[i].spec_base_offset() == found[j].spec_base_offset());
        } else if i < p {
            assert(r[i] == prev[i]);
        } else {
            assert(r[i + 1] == prev[i]);
        }
    }
}

/// Two sequences of offsets that ascend and hold the same offsets are
/// equal.
proof fn lemma_ascending_same_values(a: Seq<u64>, b: Seq<u64>)
    requires
        strictly_ascending(a),
        strictly_ascending(b),
        forall|x: u64| a.contains(x) <==> b.contains(x),
    ensures
        a == b,
    decreases a.len() + b.len(),
{
    if a.len() == 0 && b.len() > 0 {
        assert(b.contains(b[0]));
    } else if b.len() == 0 && a.len() > 0 {
        assert(a.contains(a[0]));
    } else if a.len() > 0 {
        let la = a.last();
        let lb = b.last();
        assert(a.contains(la));
        assert(b.contains(lb));
        let ia = choose|i: int| 0 <= i < a.len() && a[i] == lb;
        let ib = choose|i: int| 0 <= i < b.len() && b[i] == la;
        assert(lb <= la) by {
            if ia < a.len() - 1 {
                assert(a[ia] < a[a.len() - 1]);
            }
        }
        assert(la <= lb) by {
            if ib < b.len() - 1 {
                assert(b[ib] < b[b.len() - 1]);
            }
        }
        let da = a.drop_last();
        let db = b.drop_last();
        assert forall|x: u64| da.contains(x) <==> db.contains(x) by {
            if da.contains(x) {
                let i = choose|i: int| 0 <= i < da.len() && da[i] == x;
                assert(a[i] < la);
                assert(a.contains(x));
                let k = choose|k: int| 0 <= k < b.len() && b[k] == x;
                assert(k != b.len() - 1);
                assert(db[k] == x);
            }
            if db.contains(x) {
                let i = choose|i: int| 0 <= i < db.len() && db[i] == x;
                assert(b[i] < lb);
                assert(b.contains(x));
                let k = choose|k: int| 0 <= k < a.len() && a[k] == x;
                assert(k != a.len() - 1);
                assert(da[k] == x);
            }
        }
        assert(strictly_ascending(da));
        assert(strictly_ascending(db));
        lemma_ascending_same_values(da, db);
        assert(a =~= da.push(la));
        assert(b =~= db.push(lb));
    }
}

/// `max_end` is the largest end of the segments: none ends after it, and
/// some segment ends there unless there are none.
proof fn lemma_max_end_attained(segs: Seq<LogSegment>)
    requires
        forall|i: int| 0 <= i < segs.len() ==> (#[trigger] segs[i]).spec_base_offset() + segs[i].spec_size() <= u64::MAX,
    ensures
        segs.len() > 0 ==> exists|i: int|
            0 <= i < segs.len() && (#[trigger] segs[i]).spec_base_offset() + segs[i].spec_size() == max_end(segs),
    decreases segs.len(),
{
    if segs.len() > 1 {
        let d = segs.drop_last();
        assert forall|i: int| 0 <= i < d.len() implies (#[trigger] d[i]).spec_base_offset() + d[i].spec_size() <= u64::MAX by {
            assert(d[i] == segs[i]);
        }
        lemma_max_end_attained(d);
        let e = segs.last().spec_base_offset() + segs.last().spec_size();
        if !(e > max_end(d)) {
            let i = choose|i: int| 0 <= i < d.len() && (#[trigger] d[i]).spec_base_offset() + d[i].spec_size() == max_end(d);
            assert(segs[i] == d[i]);
        } else {
            assert(segs.last().spec_base_offset() + segs.last().spec_size() <= u64::MAX);
            assert(max_end(segs) == e);
            assert(segs[segs.len() - 1] == segs.last());
        }
    } else if segs.len() == 1 {
        let e0 = Seq::<LogSegment>::empty();
        assert(segs.drop_last() =~= e0);
        assert(max_end(e0) == 0);
        assert(segs[0] == segs.last());
        assert(segs[0].spec_base_offset() + segs[0].spec_size() <= u64::MAX);
        assert(max_end(segs) == segs[0].spec_base_offset() + segs[0].spec_size());
    }
}

/// Reopening does not depend on the order in which segment files are
/// found: when the found segments are those of a WAL, each found at least
/// once and nothing else found, `open` puts them back in that WAL's order
/// and takes the next offset from the same largest end.
pub proof fn lemma_reopen_any_order(w0: Wal, found: Seq<LogSegment>)
    requires
        w0.wf(),
        forall|i: int| 0 <= i < found.len() ==> w0.spec_segments().contains(#[trigger] found[i]),
        forall|j: int| 0 <= j < w0.spec_segments().len() ==> found.contains(#[trigger] w0.spec_segments()[j]),
        forall|j: int|
            0 <= j < w0.spec_segments().len() ==> (#[trigger] w0.spec_segments()[j]).spec_base_offset()
                + w0.spec_segments()[j].spec_size() <= u64::MAX,
    ensures
        sorted_segments(found) == w0.spec_segments(),
        max_end(found) == max_end(w0.spec_segments()),
{
    let segs = w0.spec_segments();
    let srt = sorted_segments(found);
    assert(base_offsets(segs) =~= w0.bases());
    lemma_sorted_segments_ascending_result(found);
    assert forall|x: u64| base_offsets(srt).contains(x) <==> base_offsets(segs).contains(x) by {
        if base_offsets(srt).contains(x) {
            let i = choose|i: int| 0 <= i < base_offsets(srt).len() && base_offsets(srt)[i] == x;
            lemma_sorted_segments_from(found, i);
            let j = choose|j: int| 0 <= j < found.len() && found[j] == srt[i];
            assert(segs.contains(found[j]));
            let k = choose|k: int| 0 <= k < segs.len() && segs[k] == found[j];
            assert(base_offsets(segs)[k] == x);
        }
        if base_offsets(segs).contains(x) {
            let k = choose|k: int| 0 <= k < base_offsets(segs).len() && base_offsets(segs)[k] == x;
            assert(found.contains(segs[k]));
            let j = choose|j: int| 0 <= j < found.len() && found[j] == segs[k];
            lemma_sorted_segments_covers(found, j);
            let i = choose|i: int| 0 <= i < srt.len() && (#[trigger] srt[i]).spec_base_offset() == found[j].spec_base_offset();
            assert(base_offsets(srt)[i] == x);
        }
    }
    lemma_ascending_same_values(base_offsets(srt), base_offsets(segs));
    assert forall|i: int| 0 <= i < srt.len() implies #[trigger] srt[i] == segs[i] by {
        assert(base_offsets(srt)[i] == base_offsets(segs)[i]);
        lemma_sorted_segments_from(found, i);
        let j = choose|j: int| 0 <= j < found.len() && found[j] == srt[i];
        assert(segs.contains(found[j]));
        let k = choose|k: int| 0 <= k < segs.len() && segs[k] == found[j];
        if k != i {
            assert(w0.bases()[k] != w0.bases()[i]);
        }
    }
    assert(srt =~= segs);
    assert forall|i: int| 0 <= i < found.len() implies (#[trigger] found[i]).spec_base_offset() + found[i].spec_size()
        <= u64::MAX by {
        let k = choose|k: int| 0 <= k < segs.len() && segs[k] == found[i];
    }
    lemma_max_end_ge(found);
    lemma_max_end_ge(segs);
    lemma_max_end_attained(found);
    lemma_max_end_attained(segs);
    if found.len() > 0 {
        let i = choose|i: int| 0 <= i < found.len() && (#[trigger] found[i]).spec_base_offset() + found[i].spec_size() == max_end(found);
        let k = choose|k: int| 0 <= k < segs.len() && segs[k] == found[i];
        let k2 = choose|k: int| 0 <= k < segs.len() && (#[trigger] segs[k]).spec_base_offset() + segs[k].spec_size() == max_end(segs);
        assert(found.contains(segs[k2]));
        let i2 = choose|i: int| 0 <= i < found.len() && found[i] == segs[k2];
        assert(found[i2].spec_base_offset() + found[i2].spec_size() <= max_end(found));
        assert(segs[k].spec_base_offset() + segs[k].spec_size() <= max_end(segs));
    } else {
        assert(found.contains(segs[0]));
    }
}

/// Reopening, whatever order the segment files are found in: a WAL `w`
/// opened (as `open` ensures) on the segments of a WAL `w0` made by
/// `create`, each found at least once and nothing else found, has `w0`'s
/// segments and next offset, so its next write goes where `w0`'s would
/// have, and a read of a record `w0` wrote and still retains consults the
/// same segment and finds, at the same position, the record holding the
/// written data.
pub proof fn lemma_reopen(w0: Wal, found: Seq<LogSegment>, w: Wal, o: u64)
    requires
        w0.wf(),
        w0.tidy(),
        forall|i: int| 0 <= i < found.len() ==> w0.spec_segments().contains(#[trigger] found[i]),
        forall|j: int| 0 <= j < w0.spec_segments().len() ==> found.contains(#[trigger] w0.spec_segments()[j]),
        w.spec_segments() == sorted_segments(found),
        w.spec_next_offset() == max_end(found),
        w0.records().contains_key(o),
    ensures
        w.spec_segments() == w0.spec_segments(),
        w.spec_next_offset() == w0.spec_next_offset(),
        o < w.spec_next_offset(),
        w.segment_for(o) >= 0,
        w.spec_segments()[w.segment_for(o)].locate_spec(o) == Some(
            o - w.spec_segments()[w.segment_for(o)].spec_base_offset(),
        ),
        record_at(
            w.spec_segments()[w.segment_for(o)].content(),
            o - w.spec_segments()[w.segment_for(o)].spec_base_offset(),
        ) == Some(w0.records()[o]),
{
    let segs = w0.spec_segments();
    assert forall|j: int| 0 <= j < segs.len() implies (#[trigger] segs[j]).spec_base_offset() + segs[j].spec_size()
        <= u64::MAX by {}
    lemma_reopen_any_order(w0, found);
    lemma_reopen_next_offset(w0);
    assert(w.bases() =~= w0.bases());
    lemma_retained_record_readable(w0, o);
}

/// What a WAL wrote, a WAL opened on the same segments reads back: the
/// segments are put in the same order, so a read of a record written and
/// still retained consults the same segment and finds, at the same
/// position, the record holding the written data.
pub proof fn lemma_reopen_reads_back(w0: Wal, w: Wal, o: u64)
    requires
        w0.wf(),
        w.spec_segments() == sorted_segments(w0.spec_segments()),
        w0.records().contains_key(o),
    ensures
        w.spec_segments() == w0.spec_segments(),
        w.segment_for(o) == w0.segment_for(o),
        w.segment_for(o) >= 0,
        w.spec_segments()[w.segment_for(o)].locate_spec(o) == Some(
            o - w.spec_segments()[w.segment_for(o)].spec_base_offset(),
        ),
        record_at(
            w.spec_segments()[w.segment_for(o)].content(),
            o - w.spec_segments()[w.segment_for(o)].spec_base_offset(),
        ) == Some(w0.records()[o]),
{
    assert(base_offsets(w0.spec_segments()) =~= w0.bases());
    lemma_sorted_segments_ascending(w0.spec_segments());
    assert(w.bases() =~= w0.bases());
    lemma_retained_record_readable(w0, o);
}

/// A WAL opened on the segments of a WAL made by `create` hands out, with
/// its next write, the offset that the first WAL would have: the largest
/// end of the segments is that WAL's next offset.
pub proof fn lemma_reopen_next_offset(w0: Wal)
    requires
        w0.wf(),
        w0.tidy(),
    ensures
        max_end(w0.spec_segments()) == w0.spec_next_offset(),
{
    let segs = w0.spec_segments();
    lemma_max_end_le(segs, w0.spec_next_offset());
    assert forall|i: int| 0 <= i < segs.len() implies (#[trigger] segs[i]).spec_base_offset() + segs[i].spec_size()
        <= u64::MAX by {}
    lemma_max_end_ge(segs);
    assert(segs[segs.len() - 1] == w0.active());
}

/// The active segment is never pruned: the segment holding any offset is
/// at most the last one.
pub proof fn lemma_prune_spares_active(w: Wal, retain: u64)
    requires
        w.wf(),
    ensures
        w.segment_for(retain) < w.spec_segments().len(),
{
    lemma_floor_props(w.bases(), retain);
}

} // verus!
