//! The configuration of a reader-and-writer WAL and its builder.
use crate::storage::log_segment::WritePosition;
use vstd::prelude::*;
use vstd::string::StringExecFns;

verus! {

/// The default largest segment size of a WAL: 64 MiB.
pub const DEFAULT_WAL_SEGMENT_SIZE: u64 = 67108864u64;

/// How a WAL is set up.
#[derive(Debug, Clone)]
pub struct WalConfig {
    /// Directory of the WAL.
    pub dir: String,
    /// Largest size of a segment, in bytes.
    pub max_segment_size: u64,
    /// Whether every write is synced.
    pub sync_on_write: bool,
    /// Records read at most per batch.
    pub batch_size: usize,
}

impl Default for WalConfig {
    /// `wal_data`, 64 MiB segments, no sync on write, batches of 100.
    fn default() -> (r: Self)
        ensures
            r.dir@ == "wal_data"@,
            r.max_segment_size == DEFAULT_WAL_SEGMENT_SIZE,
            !r.sync_on_write,
            r.batch_size == 100,
    {
        WalConfig {
            dir: String::from_str("wal_data"),
            max_segment_size: DEFAULT_WAL_SEGMENT_SIZE,
            sync_on_write: false,
            batch_size: 100,
        }
    }
}

impl WalConfig {
    /// This configuration in directory `dir`.
    pub fn with_dir(self, dir: &str) -> (r: Self)
        ensures
            r.dir@ == dir@,
            r.max_segment_size == self.max_segment_size,
            r.sync_on_write == self.sync_on_write,
            r.batch_size == self.batch_size,
    {
        let mut c = self;
        c.dir = String::from_str(dir);
        c
    }

    /// This configuration with segments of at most `size` bytes.
    pub fn with_max_segment_size(self, size: u64) -> (r: Self)
        ensures
            r.dir == self.dir,
            r.max_segment_size == size,
            r.sync_on_write == self.sync_on_write,
            r.batch_size == self.batch_size,
    {
        let mut c = self;
        c.max_segment_size = size;
        c
    }

    /// This configuration syncing every write or not.
    pub fn with_sync_on_write(self, sync: bool) -> (r: Self)
        ensures
            r.dir == self.dir,
            r.max_segment_size == self.max_segment_size,
            r.sync_on_write == sync,
            r.batch_size == self.batch_size,
    {
        let mut c = self;
        c.sync_on_write = sync;
        c
    }

    /// This configuration reading at most `size` records per batch.
    pub fn with_batch_size(self, size: usize) -> (r: Self)
        ensures
            r.dir == self.dir,
            r.max_segment_size == self.max_segment_size,
            r.sync_on_write == self.sync_on_write,
            r.batch_size == size,
    {
        let mut c = self;
        c.batch_size = size;
        c
    }
}

/// A record read back, with where it was.
#[derive(Debug, Clone)]
pub struct Record {
    /// The record's data.
    pub data: Vec<u8>,
    /// Where it was.
    pub position: WritePosition,
}

/// Builds the configuration of a WAL step by step.
pub struct WalBuilder {
    config: WalConfig,
}

impl WalBuilder {
    /// The configuration being built.
    pub closed spec fn spec_config(&self) -> WalConfig {
        self.config
    }

    /// A builder starting from the default configuration.
    pub fn new() -> (r: Self)
        ensures
            r.spec_config().dir@ == "wal_data"@,
            r.spec_config().max_segment_size == DEFAULT_WAL_SEGMENT_SIZE,
            !r.spec_config().sync_on_write,
            r.spec_config().batch_size == 100,
    {
        WalBuilder { config: WalConfig::default() }
    }

    /// Sets the directory.
    pub fn with_dir(self, dir: &str) -> (r: Self)
        ensures
            r.spec_config().dir@ == dir@,
            r.spec_config().max_segment_size == self.spec_config().max_segment_size,
            r.spec_config().sync_on_write == self.spec_config().sync_on_write,
            r.spec_config().batch_size == self.spec_config().batch_size,
    {
        WalBuilder { config: self.config.with_dir(dir) }
    }

    /// Sets the largest segment size.
    pub fn with_max_segment_size(self, size: u64) -> (r: Self)
        ensures
            r.spec_config() == (WalConfig { max_segment_size: size, ..self.spec_config() }),
    {
        WalBuilder { config: self.config.with_max_segment_size(size) }
    }

    /// Sets whether every write is synced.
    pub fn with_sync_on_write(self, sync: bool) -> (r: Self)
        ensures
            r.spec_config() == (WalConfig { sync_on_write: sync, ..self.spec_config() }),
    {
        WalBuilder { config: self.config.with_sync_on_write(sync) }
    }

    /// Sets the batch size.
    pub fn with_batch_size(self, size: usize) -> (r: Self)
        ensures
            r.spec_config() == (WalConfig { batch_size: size, ..self.spec_config() }),
    {
        WalBuilder { config: self.config.with_batch_size(size) }
    }

    /// The configuration built.
    pub fn config(&self) -> (r: &WalConfig)
        ensures
            *r == self.spec_config(),
    {
        &self.config
    }
}

impl Default for WalBuilder {
    fn default() -> (r: Self)
        ensures
            r.spec_config().dir@ == "wal_data"@,
            r.spec_config().max_segment_size == DEFAULT_WAL_SEGMENT_SIZE,
            !r.spec_config().sync_on_write,
            r.spec_config().batch_size == 100,
    {
        WalBuilder::new()
    }
}

} // verus!
