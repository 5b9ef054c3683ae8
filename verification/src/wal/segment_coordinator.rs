//! The rotation policy of segments and the bookkeeping of the segment being
//! written: when a segment is full by size, by record count or by age, the
//! next one is started.
//!
//! Creating and opening segment files is left to the caller, which also
//! measures a segment's age.
use crate::storage::segment_manager::{
    activated, deactivated, first_index, max_id, resized, scanned, segment_path_spec, sort_by_id, SegmentConfig,
    SegmentManager, SegmentMeta, SegmentMetaView, DEFAULT_MAX_SEGMENT_SIZE,
};
use vstd::prelude::*;

verus! {

/// When a segment is full.
#[derive(Debug, Clone, Copy, PartialEq, Eq, Structural)]
pub struct RotationConfig {
    /// Size at which a segment is full, in bytes.
    pub max_segment_size: u64,
    /// Age at which a segment is full, in milliseconds, if any.
    pub max_segment_age_ms: Option<u64>,
    /// Record count at which a segment is full, if any.
    pub max_records_per_segment: Option<u64>,
}

impl RotationConfig {
    /// Full at 1 GiB, with no limit of age or records.
    pub fn new() -> (r: Self)
        ensures
            r == (RotationConfig {
                max_segment_size: DEFAULT_MAX_SEGMENT_SIZE,
                max_segment_age_ms: None,
                max_records_per_segment: None,
            }),
    {
        RotationConfig {
            max_segment_size: DEFAULT_MAX_SEGMENT_SIZE,
            max_segment_age_ms: None,
            max_records_per_segment: None,
        }
    }

    /// This policy, full at `size` bytes.
    pub fn with_max_size(self, size: u64) -> (r: Self)
        ensures
            r == (RotationConfig { max_segment_size: size, ..self }),
    {
        RotationConfig { max_segment_size: size, ..self }
    }

    /// This policy, full at `age_ms` milliseconds of age.
    pub fn with_max_age(self, age_ms: u64) -> (r: Self)
        ensures
            r == (RotationConfig { max_segment_age_ms: Some(age_ms), ..self }),
    {
        RotationConfig { max_segment_age_ms: Some(age_ms), ..self }
    }

    /// This policy, full at `records` records.
    pub fn with_max_records(self, records: u64) -> (r: Self)
        ensures
            r == (RotationConfig { max_records_per_segment: Some(records), ..self }),
    {
        RotationConfig { max_records_per_segment: Some(records), ..self }
    }
}

impl Default for RotationConfig {
    fn default() -> (r: Self)
        ensures
            r == RotationConfig::new_spec(),
    {
        RotationConfig::new()
    }
}

impl RotationConfig {
    /// The default policy.
    pub open spec fn new_spec() -> RotationConfig {
        RotationConfig {
            max_segment_size: DEFAULT_MAX_SEGMENT_SIZE,
            max_segment_age_ms: None,
            max_records_per_segment: None,
        }
    }
}

/// Whether a segment of `size` bytes holding `records` records, of age
/// `age_ms` when known, is full under `c`.
pub open spec fn rotation_due(c: RotationConfig, size: u64, records: u64, age_ms: Option<u64>) -> bool {
    ||| size >= c.max_segment_size
    ||| (c.max_records_per_segment matches Some(m) && records >= m)
    ||| (c.max_segment_age_ms matches Some(a) && (age_ms matches Some(g) && g >= a))
}

/// Whether a segment of `size` bytes holding `records` records, of age
/// `age_ms` when known, is full under `config`.
pub fn should_rotate(config: &RotationConfig, size: u64, records: u64, age_ms: Option<u64>) -> (r: bool)
    ensures
        r == rotation_due(*config, size, records, age_ms),
{
    let mut should = false;
    if size >= config.max_segment_size {
        should = true;
    }
    match config.max_records_per_segment {
        Some(max_records) => {
            if records >= max_records {
                should = true;
            }
        },
        None => {},
    }
    match config.max_segment_age_ms {
        Some(max_age) => match age_ms {
            Some(age) => {
                if age >= max_age {
                    should = true;
                }
            },
            None => {},
        },
        None => {},
    }
    should
}

/// What is known of the segment being written.
#[derive(Debug, Clone)]
pub struct ExtendedSegmentStats {
    /// Records written to it.
    pub records_in_current_segment: u64,
    /// When it was opened for writing, once it was.
    pub current_segment_created_at: Option<std::time::Instant>,
}

/// The segments of a WAL, the one being written, and when to start the next.
pub struct SegmentCoordinator {
    manager: SegmentManager,
    rotation_config: RotationConfig,
    records_in_current_segment: u64,
    current_segment_created_at: Option<std::time::Instant>,
}

impl SegmentCoordinator {
    /// The segment bookkeeping.
    pub closed spec fn spec_manager(&self) -> SegmentManager {
        self.manager
    }

    /// The rotation policy.
    pub closed spec fn spec_rotation_config(&self) -> RotationConfig {
        self.rotation_config
    }

    /// Records written to the segment being written.
    pub closed spec fn spec_records(&self) -> u64 {
        self.records_in_current_segment
    }

    /// When the segment being written was opened, once it was.
    pub closed spec fn spec_created_at(&self) -> Option<std::time::Instant> {
        self.current_segment_created_at
    }

    /// A coordinator of the segment files among `found` (names and sizes of
    /// the regular files of `segment_config.dir`), with no record counted.
    pub fn new(rotation_config: RotationConfig, segment_config: SegmentConfig, found: &[(String, u64)]) -> (r: Self)
        ensures
            r.spec_manager().wf(),
            r.spec_manager().spec_config() == segment_config,
            r.spec_manager().spec_segments() == activated(
                sort_by_id(scanned(segment_config, found@)),
                max_id(scanned(segment_config, found@)),
            ),
            r.spec_manager().spec_active_id() == max_id(scanned(segment_config, found@)),
            r.spec_rotation_config() == rotation_config,
            r.spec_records() == 0,
            r.spec_created_at() is None,
    {
        let manager = SegmentManager::new(segment_config, found);
        SegmentCoordinator { manager, rotation_config, records_in_current_segment: 0, current_segment_created_at: None }
    }

    /// Adds a write of `bytes_written` bytes and `records_written` records
    /// to the segment being written.
    pub fn update_size(&mut self, bytes_written: u64, records_written: u64)
        requires
            old(self).spec_manager().spec_active_size() + bytes_written <= u64::MAX,
            old(self).spec_records() + records_written <= u64::MAX,
        ensures
            final(self).spec_manager().spec_active_size() == old(self).spec_manager().spec_active_size()
                + bytes_written,
            final(self).spec_manager().spec_active_id() == old(self).spec_manager().spec_active_id(),
            final(self).spec_manager().spec_config() == old(self).spec_manager().spec_config(),
            final(self).spec_manager().spec_segments() == resized(
                old(self).spec_manager().spec_segments(),
                old(self).spec_manager().spec_active_id(),
                final(self).spec_manager().spec_active_size(),
                final(self).spec_manager().spec_active_size() >= old(
                    self,
                ).spec_manager().spec_config().max_segment_size,
            ),
            old(self).spec_manager().wf() ==> final(self).spec_manager().wf(),
            final(self).spec_records() == old(self).spec_records() + records_written,
            final(self).spec_rotation_config() == old(self).spec_rotation_config(),
            final(self).spec_created_at() == old(self).spec_created_at(),
    {
        self.manager.update_active_size(bytes_written);
        self.records_in_current_segment = self.records_in_current_segment + records_written;
    }

    /// Whether the segment being written is full, its age being `age_ms`
    /// when known.
    pub fn rotation_due(&self, age_ms: Option<u64>) -> (r: bool)
        ensures
            r == rotation_due(
                self.spec_rotation_config(),
                self.spec_manager().spec_active_size(),
                self.spec_records(),
                age_ms,
            ),
    {
        should_rotate(&self.rotation_config, self.manager.active_size(), self.records_in_current_segment, age_ms)
    }

    /// The path of the segment that a rotation would start.
    pub fn next_segment_path(&self) -> (r: String)
        requires
            self.spec_manager().spec_active_id() < u64::MAX,
        ensures
            r@ == segment_path_spec(self.spec_manager().spec_config(), (self.spec_manager().spec_active_id() + 1) as u64),
    {
        let id = self.manager.active_id() + 1;
        self.manager.make_path(id)
    }

    /// Starts the next segment, whose file the caller has created; returns
    /// its id and path.
    pub fn do_rotate(&mut self) -> (r: (u64, String))
        requires
            old(self).spec_manager().wf(),
            old(self).spec_manager().spec_active_id() < u64::MAX,
        ensures
            final(self).spec_manager().wf(),
            r.0 == old(self).spec_manager().spec_active_id() + 1,
            r.1@ == segment_path_spec(old(self).spec_manager().spec_config(), r.0),
            final(self).spec_manager().spec_active_id() == r.0,
            final(self).spec_manager().spec_active_size() == 0,
            final(self).spec_manager().spec_config() == old(self).spec_manager().spec_config(),
            final(self).spec_manager().spec_segments() == deactivated(
                old(self).spec_manager().spec_segments(),
                old(self).spec_manager().spec_active_id(),
            ).push(SegmentMetaView { id: r.0, path: r.1@, size: 0, is_active: true }),
            final(self).spec_records() == 0,
            final(self).spec_rotation_config() == old(self).spec_rotation_config(),
            final(self).spec_created_at() is None,
    {
        let r = self.manager.create_segment();
        self.records_in_current_segment = 0;
        self.current_segment_created_at = None;
        r
    }

    /// Records that the file of the segment being written was opened at
    /// `now`.
    pub fn mark_opened(&mut self, now: std::time::Instant)
        ensures
            final(self).spec_created_at() == Some(now),
            final(self).spec_manager() == old(self).spec_manager(),
            final(self).spec_records() == old(self).spec_records(),
            final(self).spec_rotation_config() == old(self).spec_rotation_config(),
    {
        self.current_segment_created_at = Some(now);
    }

    /// The records written to the segment being written and when it was
    /// opened.
    pub fn stats(&self) -> (r: ExtendedSegmentStats)
        ensures
            r.records_in_current_segment == self.spec_records(),
            r.current_segment_created_at == self.spec_created_at(),
    {
        ExtendedSegmentStats {
            records_in_current_segment: self.records_in_current_segment,
            current_segment_created_at: self.current_segment_created_at,
        }
    }

    /// Starts the next segment if the one being written is full, its age
    /// being `age_ms` when known; returns the new segment's id and path.
    pub fn check_and_rotate(&mut self, age_ms: Option<u64>) -> (r: Option<(u64, String)>)
        requires
            old(self).spec_manager().wf(),
            rotation_due(
                old(self).spec_rotation_config(),
                old(self).spec_manager().spec_active_size(),
                old(self).spec_records(),
                age_ms,
            ) ==> old(self).spec_manager().spec_active_id() < u64::MAX,
        ensures
            final(self).spec_manager().wf(),
            !rotation_due(
                old(self).spec_rotation_config(),
                old(self).spec_manager().spec_active_size(),
                old(self).spec_records(),
                age_ms,
            ) ==> r is None && *final(self) == *old(self),
            rotation_due(
                old(self).spec_rotation_config(),
                old(self).spec_manager().spec_active_size(),
                old(self).spec_records(),
                age_ms,
            ) ==> (r matches Some(p) && p.0 == old(self).spec_manager().spec_active_id() + 1
                && p.1@ == segment_path_spec(old(self).spec_manager().spec_config(), p.0)
                && final(self).spec_created_at() is None
                && final(self).spec_manager().spec_config() == old(self).spec_manager().spec_config()
                && final(self).spec_manager().spec_active_id() == p.0
                && final(self).spec_manager().spec_active_size() == 0 && final(self).spec_records() == 0),
            final(self).spec_rotation_config() == old(self).spec_rotation_config(),
    {
        if self.rotation_due(age_ms) {
            Some(self.do_rotate())
        } else {
            None
        }
    }

    /// The id and path of the segment being written, starting the first
    /// segment when there is none yet (active id 0); the caller opens its
    /// file, creating it for a new segment.
    pub fn active_segment(&mut self) -> (r: (u64, String))
        requires
            old(self).spec_manager().wf(),
        ensures
            final(self).spec_manager().wf(),
            r.0 == final(self).spec_manager().spec_active_id(),
            r.1@ == segment_path_spec(final(self).spec_manager().spec_config(), r.0),
            final(self).spec_records() == old(self).spec_records(),
            final(self).spec_rotation_config() == old(self).spec_rotation_config(),
            final(self).spec_created_at() == old(self).spec_created_at(),
            old(self).spec_manager().spec_active_id() != 0 ==> final(self).spec_manager() == old(
                self,
            ).spec_manager(),
            old(self).spec_manager().spec_active_id() == 0 ==> {
                &&& r.0 == 1
                &&& final(self).spec_manager().spec_active_size() == 0
                &&& final(self).spec_manager().spec_config() == old(self).spec_manager().spec_config()
                &&& final(self).spec_manager().spec_segments() == deactivated(
                    old(self).spec_manager().spec_segments(),
                    0,
                ).push(SegmentMetaView { id: 1, path: r.1@, size: 0, is_active: true })
            },
    {
        if self.manager.active_id() == 0 {
            self.manager.create_segment()
        } else {
            (self.manager.active_id(), self.manager.active_path())
        }
    }

    /// The id of the segment being written.
    pub fn active_segment_id(&self) -> (r: u64)
        ensures
            r == self.spec_manager().spec_active_id(),
    {
        self.manager.active_id()
    }

    /// The size of the segment being written.
    pub fn active_segment_size(&self) -> (r: u64)
        ensures
            r == self.spec_manager().spec_active_size(),
    {
        self.manager.active_size()
    }

    /// Records written to the segment being written.
    pub fn records_in_current_segment(&self) -> (r: u64)
        ensures
            r == self.spec_records(),
    {
        self.records_in_current_segment
    }

    /// The segment bookkeeping.
    pub fn manager(&self) -> (r: &SegmentManager)
        ensures
            *r == self.spec_manager(),
    {
        &self.manager
    }

    /// The first segment with id `id`, if any.
    pub fn get_segment_meta(&self, id: u64) -> (r: Option<&SegmentMeta>)
        ensures
            first_index(self.spec_manager().spec_segments(), id) < 0 ==> r is None,
            first_index(self.spec_manager().spec_segments(), id) >= 0 ==> (r matches Some(m) && m@
                == self.spec_manager().spec_segments()[first_index(self.spec_manager().spec_segments(), id)]),
    {
        self.manager.get_segment(id)
    }

    /// The number of segments.
    pub fn segment_count(&self) -> (r: usize)
        ensures
            r == self.spec_manager().spec_segments().len(),
    {
        self.manager.segment_count()
    }

    /// Whether there is no segment.
    pub fn segments_is_empty(&self) -> (r: bool)
        ensures
            r == (self.spec_manager().spec_segments().len() == 0),
    {
        self.manager.segment_count() == 0
    }

    /// The rotation policy.
    pub fn rotation_config(&self) -> (r: &RotationConfig)
        ensures
            *r == self.spec_rotation_config(),
    {
        &self.rotation_config
    }

    /// The segment configuration.
    pub fn segment_config(&self) -> (r: &SegmentConfig)
        ensures
            *r == self.spec_manager().spec_config(),
    {
        self.manager.config()
    }
}

} // verus!
