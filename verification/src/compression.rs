//! Record-level compression algorithms and their one-byte tags.
//!
//! This build of the library carries no compressor: only `Uncompressed` passes data
//! through, and the other algorithms report that compression is not
//! available.
use crate::error::Error;
use vstd::prelude::*;
use vstd::string::StringExecFns;

verus! {

/// Tag of uncompressed data.
pub const COMPRESSION_NONE: u8 = 0x00u8;

/// Tag of Snappy-compressed data.
pub const COMPRESSION_SNAPPY: u8 = 0x01u8;

/// Tag of Zstd-compressed data.
pub const COMPRESSION_ZSTD: u8 = 0x02u8;

/// A compression algorithm.
#[derive(Debug, Clone, Copy, PartialEq, Eq, Structural)]
pub enum CompressionAlgo {
    /// No compression: data is stored as it is.
    Uncompressed,
    /// Snappy: fast, moderate ratio.
    Snappy,
    /// Zstd: slower, higher ratio.
    Zstd,
}

/// The tag that stands for `algo`.
pub open spec fn algo_tag(algo: CompressionAlgo) -> u8 {
    match algo {
        CompressionAlgo::Uncompressed => COMPRESSION_NONE,
        CompressionAlgo::Snappy => COMPRESSION_SNAPPY,
        CompressionAlgo::Zstd => COMPRESSION_ZSTD,
    }
}

/// The algorithm that `byte` tags, if any.
pub open spec fn algo_of_tag(byte: u8) -> Option<CompressionAlgo> {
    if byte == COMPRESSION_NONE {
        Some(CompressionAlgo::Uncompressed)
    } else if byte == COMPRESSION_SNAPPY {
        Some(CompressionAlgo::Snappy)
    } else if byte == COMPRESSION_ZSTD {
        Some(CompressionAlgo::Zstd)
    } else {
        None
    }
}

/// The message of the error that an unavailable algorithm reports.
pub open spec fn not_enabled_message() -> Seq<char> {
    "Compression feature not enabled"@
}

impl CompressionAlgo {
    /// The algorithm that `byte` tags, if any.
    pub fn from_byte(byte: u8) -> (r: Option<Self>)
        ensures
            r == algo_of_tag(byte),
    {
        match byte {
            COMPRESSION_NONE => Some(CompressionAlgo::Uncompressed),
            COMPRESSION_SNAPPY => Some(CompressionAlgo::Snappy),
            COMPRESSION_ZSTD => Some(CompressionAlgo::Zstd),
            _ => None,
        }
    }

    /// The tag of this algorithm.
    pub fn to_byte(self) -> (r: u8)
        ensures
            r == algo_tag(self),
    {
        match self {
            CompressionAlgo::Uncompressed => COMPRESSION_NONE,
            CompressionAlgo::Snappy => COMPRESSION_SNAPPY,
            CompressionAlgo::Zstd => COMPRESSION_ZSTD,
        }
    }

    /// Compresses `data`: `Uncompressed` gives it back unchanged; the other
    /// algorithms are not available in this build.
    pub fn compress(&self, data: &[u8]) -> (r: Result<Vec<u8>, Error>)
        ensures
            *self == CompressionAlgo::Uncompressed ==> (r matches Ok(v) && v@ == data@),
            *self != CompressionAlgo::Uncompressed ==> (r matches Err(Error::Compression(m)) && m@
                == not_enabled_message()),
    {
        match self {
            CompressionAlgo::Uncompressed => Ok(copy_bytes(data)),
            _ => Err(Error::Compression(String::from_str("Compression feature not enabled"))),
        }
    }

    /// Decompresses `data`: `Uncompressed` gives it back unchanged; the other
    /// algorithms are not available in this build.
    pub fn decompress(&self, data: &[u8]) -> (r: Result<Vec<u8>, Error>)
        ensures
            *self == CompressionAlgo::Uncompressed ==> (r matches Ok(v) && v@ == data@),
            *self != CompressionAlgo::Uncompressed ==> (r matches Err(Error::Compression(m)) && m@
                == not_enabled_message()),
    {
        match self {
            CompressionAlgo::Uncompressed => Ok(copy_bytes(data)),
            _ => Err(Error::Compression(String::from_str("Compression feature not enabled"))),
        }
    }
}

/// A vector holding the bytes of `data`.
fn copy_bytes(data: &[u8]) -> (r: Vec<u8>)
    ensures
        r@ == data@,
{
    let mut r: Vec<u8> = Vec::new();
    let mut i: usize = 0;
    while i < data.len()
        invariant
            i <= data@.len(),
            r@ == data@.take(i as int),
        decreases data@.len() - i,
    {
        r.push(data[i]);
        i = i + 1;
        assert(r@ =~= data@.take(i as int));
    }
    assert(data@.take(i as int) =~= data@);
    r
}

/// Every algorithm reads back from its tag, and a tag that reads as an
/// algorithm is that algorithm's tag.
pub proof fn lemma_tag_roundtrip(algo: CompressionAlgo, byte: u8)
    ensures
        algo_of_tag(algo_tag(algo)) == Some(algo),
        algo_of_tag(byte) matches Some(a) ==> algo_tag(a) == byte,
{
}

} // verus!
