//! The configuration of a WAL built from coordinators, and its builder.
use crate::storage::log_segment::WritePosition;
use crate::wal::sync_strategy::SyncMode;
use vstd::prelude::*;
use vstd::string::StringExecFns;

verus! {

/// The default largest segment size: 64 MiB.
pub const DEFAULT_SEGMENT_BYTES: u64 = 67108864u64;

/// The default read-ahead: 64 KiB.
pub const DEFAULT_READ_AHEAD: usize = 65536usize;

/// How a WAL is set up.
#[derive(Debug, Clone)]
pub struct WalConfig {
    /// Directory of the WAL.
    pub dir: String,
    /// Largest size of a segment, in bytes.
    pub max_segment_size: u64,
    /// When written data is synced.
    pub sync_mode: SyncMode,
    /// Records read at most per batch.
    pub batch_size: usize,
    /// Bytes read ahead of the reader.
    pub read_ahead_size: usize,
}

/// The configuration as plain values: directory, segment size, sync mode,
/// batch size and read-ahead.
pub open spec fn config_parts(c: WalConfig) -> (Seq<char>, u64, SyncMode, usize, usize) {
    (c.dir@, c.max_segment_size, c.sync_mode, c.batch_size, c.read_ahead_size)
}

/// The default configuration as plain values.
pub open spec fn default_parts() -> (Seq<char>, u64, SyncMode, usize, usize) {
    ("wal_data"@, DEFAULT_SEGMENT_BYTES, SyncMode::NoSync, 100, DEFAULT_READ_AHEAD)
}

/// The sync mode that `sync_on_write` selects.
pub open spec fn sync_mode_of(sync_on_write: bool) -> SyncMode {
    if sync_on_write {
        SyncMode::FsyncOnWrite
    } else {
        SyncMode::NoSync
    }
}

impl Default for WalConfig {
    /// `wal_data`, 64 MiB segments, no sync, batches of 100, 64 KiB ahead.
    fn default() -> (r: Self)
        ensures
            config_parts(r) == default_parts(),
    {
        WalConfig {
            dir: String::from_str("wal_data"),
            max_segment_size: DEFAULT_SEGMENT_BYTES,
            sync_mode: SyncMode::NoSync,
            batch_size: 100,
            read_ahead_size: DEFAULT_READ_AHEAD,
        }
    }
}

impl WalConfig {
    /// This configuration in directory `dir`.
    pub fn with_dir(self, dir: &str) -> (r: Self)
        ensures
            config_parts(r) == (dir@, self.max_segment_size, self.sync_mode, self.batch_size, self.read_ahead_size),
    {
        let mut c = self;
        c.dir = String::from_str(dir);
        c
    }

    /// This configuration with segments of at most `size` bytes.
    pub fn with_max_segment_size(self, size: u64) -> (r: Self)
        ensures
            config_parts(r) == (self.dir@, size, self.sync_mode, self.batch_size, self.read_ahead_size),
    {
        let mut c = self;
        c.max_segment_size = size;
        c
    }

    /// This configuration syncing in `mode`.
    pub fn with_sync_mode(self, mode: SyncMode) -> (r: Self)
        ensures
            config_parts(r) == (self.dir@, self.max_segment_size, mode, self.batch_size, self.read_ahead_size),
    {
        let mut c = self;
        c.sync_mode = mode;
        c
    }

    /// This configuration syncing after every write, or never.
    pub fn with_sync_on_write(self, sync: bool) -> (r: Self)
        ensures
            config_parts(r) == (
                self.dir@,
                self.max_segment_size,
                sync_mode_of(sync),
                self.batch_size,
                self.read_ahead_size,
            ),
    {
        let mut c = self;
        c.sync_mode = if sync {
            SyncMode::FsyncOnWrite
        } else {
            SyncMode::NoSync
        };
        c
    }

    /// This configuration reading at most `size` records per batch.
    pub fn with_batch_size(self, size: usize) -> (r: Self)
        ensures
            config_parts(r) == (self.dir@, self.max_segment_size, self.sync_mode, size, self.read_ahead_size),
    {
        let mut c = self;
        c.batch_size = size;
        c
    }

    /// This configuration reading `size` bytes ahead.
    pub fn with_read_ahead_size(self, size: usize) -> (r: Self)
        ensures
            config_parts(r) == (self.dir@, self.max_segment_size, self.sync_mode, self.batch_size, size),
    {
        let mut c = self;
        c.read_ahead_size = size;
        c
    }
}

/// A record read back, with where it was.
#[derive(Debug, Clone)]
pub struct Record {
    /// The record's data.
    pub data: Vec<u8>,
    /// Where it was.
    pub position: WritePosition,
}

/// Builds the configuration of a WAL step by step.
pub struct WalBuilder {
    config: WalConfig,
}

impl WalBuilder {
    /// The configuration being built, as plain values.
    pub closed spec fn parts(&self) -> (Seq<char>, u64, SyncMode, usize, usize) {
        config_parts(self.config)
    }

    /// A builder starting from the default configuration.
    pub fn new() -> (r: Self)
        ensures
            r.parts() == default_parts(),
    {
        WalBuilder { config: WalConfig::default() }
    }

    /// Sets the directory.
    pub fn with_dir(self, dir: &str) -> (r: Self)
        ensures
            r.parts() == (dir@, self.parts().1, self.parts().2, self.parts().3, self.parts().4),
    {
        WalBuilder { config: self.config.with_dir(dir) }
    }

    /// Sets the largest segment size.
    pub fn with_max_segment_size(self, size: u64) -> (r: Self)
        ensures
            r.parts() == (self.parts().0, size, self.parts().2, self.parts().3, self.parts().4),
    {
        WalBuilder { config: self.config.with_max_segment_size(size) }
    }

    /// Syncs after every write, or never.
    pub fn with_sync_on_write(self, sync: bool) -> (r: Self)
        ensures
            r.parts() == (self.parts().0, self.parts().1, sync_mode_of(sync), self.parts().3, self.parts().4),
    {
        WalBuilder { config: self.config.with_sync_on_write(sync) }
    }

    /// Sets the sync mode.
    pub fn with_sync_mode(self, mode: SyncMode) -> (r: Self)
        ensures
            r.parts() == (self.parts().0, self.parts().1, mode, self.parts().3, self.parts().4),
    {
        WalBuilder { config: self.config.with_sync_mode(mode) }
    }

    /// Sets the batch size.
    pub fn with_batch_size(self, size: usize) -> (r: Self)
        ensures
            r.parts() == (self.parts().0, self.parts().1, self.parts().2, size, self.parts().4),
    {
        WalBuilder { config: self.config.with_batch_size(size) }
    }

    /// Sets the read-ahead size.
    pub fn with_read_ahead_size(self, size: usize) -> (r: Self)
        ensures
            r.parts() == (self.parts().0, self.parts().1, self.parts().2, self.parts().3, size),
    {
        WalBuilder { config: self.config.with_read_ahead_size(size) }
    }

    /// The configuration built.
    pub fn config(&self) -> (r: &WalConfig)
        ensures
            config_parts(*r) == self.parts(),
    {
        &self.config
    }
}

impl Default for WalBuilder {
    fn default() -> (r: Self)
        ensures
            r.parts() == default_parts(),
    {
        WalBuilder::new()
    }
}

} // verus!
