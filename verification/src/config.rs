//! WAL configuration.
use crate::error::Error;
use vstd::prelude::*;
use vstd::string::StringExecFns;

verus! {

/// When written records are made durable.
#[derive(Debug, Clone, Copy, PartialEq, Eq, Structural)]
pub enum PersistenceMode {
    /// Every write is synced before it returns.
    Immediate,
    /// Writes accumulate; the caller syncs them with `flush`.
    Batch,
    /// Syncing is left entirely to the caller.
    Manual,
}

impl Default for PersistenceMode {
    fn default() -> (r: Self)
        ensures
            r == PersistenceMode::Immediate,
    {
        PersistenceMode::Immediate
    }
}

/// The default segment size: 1 GiB.
pub const DEFAULT_SEGMENT_SIZE: usize = 1073741824usize;

/// WAL configuration.
#[derive(Debug, Clone)]
pub struct Config {
    segment_size: usize,
    persistence_mode: PersistenceMode,
}

impl Default for Config {
    fn default() -> (r: Self)
        ensures
            r.spec_segment_size() == DEFAULT_SEGMENT_SIZE,
            r.spec_persistence_mode() == PersistenceMode::Immediate,
    {
        Config { segment_size: DEFAULT_SEGMENT_SIZE, persistence_mode: PersistenceMode::Immediate }
    }
}

impl Config {
    /// The configured maximum segment size, in bytes.
    pub closed spec fn spec_segment_size(&self) -> usize {
        self.segment_size
    }

    /// The configured persistence mode.
    pub closed spec fn spec_persistence_mode(&self) -> PersistenceMode {
        self.persistence_mode
    }

    /// Whether `validate` accepts this configuration.
    pub open spec fn is_valid(&self) -> bool {
        self.spec_segment_size() > 0
    }

    /// The default configuration.
    pub fn new() -> (r: Self)
        ensures
            r.spec_segment_size() == DEFAULT_SEGMENT_SIZE,
            r.spec_persistence_mode() == PersistenceMode::Immediate,
    {
        Config::default()
    }

    /// This configuration with the segment size set to `size`.
    pub fn with_segment_size(self, size: usize) -> (r: Self)
        ensures
            r.spec_segment_size() == size,
            r.spec_persistence_mode() == self.spec_persistence_mode(),
    {
        Config { segment_size: size, persistence_mode: self.persistence_mode }
    }

    /// The maximum segment size, in bytes.
    pub fn segment_size(&self) -> (r: usize)
        ensures
            r == self.spec_segment_size(),
    {
        self.segment_size
    }

    /// This configuration with the persistence mode set to `mode`.
    pub fn with_persistence_mode(self, mode: PersistenceMode) -> (r: Self)
        ensures
            r.spec_segment_size() == self.spec_segment_size(),
            r.spec_persistence_mode() == mode,
    {
        Config { segment_size: self.segment_size, persistence_mode: mode }
    }

    /// The persistence mode.
    pub fn persistence_mode(&self) -> (r: PersistenceMode)
        ensures
            r == self.spec_persistence_mode(),
    {
        self.persistence_mode
    }

    /// Accepts a configuration whose segment size is positive.
    pub fn validate(&self) -> (r: Result<(), Error>)
        ensures
            r is Ok <==> self.is_valid(),
            r is Err ==> (r matches Err(Error::Config { message }) && message@
                == "segment size must be greater than 0"@),
    {
        if self.segment_size == 0 {
            return Err(Error::Config { message: String::from_str("segment size must be greater than 0") });
        }
        Ok(())
    }
}

} // verus!
