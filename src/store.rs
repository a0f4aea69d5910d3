//! How the store handle is opened and how its writes are made durable.
//!
//! A dataset is first loaded in bulk mode: no automatic compaction, and
//! writes that skip the write-ahead log and are not synced. Once the load is
//! over, the handle is closed and the dataset opened again in durable mode,
//! where every write goes through the log and is synced before it returns.
use vstd::prelude::*;

verus! {

/// How a handle was opened: where, and whether in bulk mode.
pub struct Options {
    pub path: String,
    pub bulk_import: bool,
}

/// Durability of one write batch.
#[derive(Clone, Copy, PartialEq, Eq, Structural)]
pub struct WriteMode {
    /// Block until the write reaches stable storage.
    pub sync: bool,
    /// Skip the write-ahead log.
    pub disable_wal: bool,
}

/// Block compression of the dataset.
#[derive(Clone, Copy, PartialEq, Eq, Structural)]
pub enum Compression {
    Snappy,
}

/// Engine settings for opening a dataset.
#[derive(Clone, Copy, PartialEq, Eq, Structural)]
pub struct Tuning {
    pub create_if_missing: bool,
    pub max_open_files: i32,
    pub compaction_readahead_size: usize,
    pub leveled_compaction: bool,
    pub compression: Compression,
    pub target_file_size_base: u64,
    pub write_buffer_size: usize,
    pub min_write_buffer_number: i32,
    pub max_write_buffer_number: i32,
    pub disable_auto_compactions: bool,
    pub block_size: usize,
}

pub const MAX_OPEN_FILES: i32 = 2048;
pub const COMPACTION_READAHEAD_SIZE: usize = 1048576;
pub const TARGET_FILE_SIZE_BASE: u64 = 134217728;
pub const WRITE_BUFFER_SIZE: usize = 67108864;
pub const MIN_WRITE_BUFFER_NUMBER: i32 = 2;
pub const MAX_WRITE_BUFFER_NUMBER: i32 = 3;
pub const BLOCK_SIZE: usize = 1048576;

/// Writes in bulk mode skip the log and do not sync; all others do both.
pub open spec fn write_mode_for(bulk_import: bool) -> WriteMode {
    WriteMode { sync: !bulk_import, disable_wal: bulk_import }
}

/// A checkpoint write: logged and synced whatever the mode.
pub open spec fn checkpoint_mode() -> WriteMode {
    WriteMode { sync: true, disable_wal: false }
}

impl Options {
    /// The options after the switch out of bulk mode: same dataset, durable writes.
    pub open spec fn after_transition(self) -> Options {
        Options { path: self.path, bulk_import: false }
    }

    /// Options for opening the dataset at `path` in bulk mode.
    pub fn open(path: String) -> (r: Options)
        ensures
            r.path == path,
            r.bulk_import,
    {
        Options { path, bulk_import: true }
    }

    /// Options for reopening the same dataset in durable mode, with
    /// compaction enabled. The handle opened with `self` must be closed first.
    pub fn enable_compaction(self) -> (r: Options)
        ensures
            r == self.after_transition(),
    {
        Options { path: self.path, bulk_import: false }
    }

    /// Durability of a batch of rows, or of a single put, in this mode.
    pub fn write_mode(&self) -> (r: WriteMode)
        ensures
            r == write_mode_for(self.bulk_import),
    {
        WriteMode { sync: !self.bulk_import, disable_wal: self.bulk_import }
    }

    /// Durability of the empty batch written by a flush.
    pub fn flush_mode(&self) -> (r: WriteMode)
        ensures
            r == checkpoint_mode(),
    {
        WriteMode { sync: true, disable_wal: false }
    }

    /// Engine settings for opening the dataset in this mode.
    pub fn tuning(&self) -> (r: Tuning)
        ensures
            r.disable_auto_compactions == self.bulk_import,
            r.create_if_missing,
            r.max_open_files == MAX_OPEN_FILES,
            r.compaction_readahead_size == COMPACTION_READAHEAD_SIZE,
            r.leveled_compaction,
            r.compression == Compression::Snappy,
            r.target_file_size_base == TARGET_FILE_SIZE_BASE,
            r.write_buffer_size == WRITE_BUFFER_SIZE,
            r.min_write_buffer_number == MIN_WRITE_BUFFER_NUMBER,
            r.max_write_buffer_number == MAX_WRITE_BUFFER_NUMBER,
            r.block_size == BLOCK_SIZE,
    {
        Tuning {
            create_if_missing: true,
            max_open_files: MAX_OPEN_FILES,
            compaction_readahead_size: COMPACTION_READAHEAD_SIZE,
            leveled_compaction: true,
            compression: Compression::Snappy,
            target_file_size_base: TARGET_FILE_SIZE_BASE,
            write_buffer_size: WRITE_BUFFER_SIZE,
            min_write_buffer_number: MIN_WRITE_BUFFER_NUMBER,
            max_write_buffer_number: MAX_WRITE_BUFFER_NUMBER,
            disable_auto_compactions: self.bulk_import,
            block_size: BLOCK_SIZE,
        }
    }
}

/// After the switch out of bulk mode, every write and every put goes through
/// the write-ahead log and is synced before it returns, and compaction runs.
pub proof fn lemma_durable_after_transition(o: Options)
    ensures
        write_mode_for(o.after_transition().bulk_import) == (WriteMode {
            sync: true,
            disable_wal: false,
        }),
        o.after_transition().path == o.path,
        !o.after_transition().bulk_import,
{
}

} // verus!
