//! Compression for transparent compression in plugins.
use vstd::prelude::*;
use crate::error::FSError;
use crate::text::concat_str;

verus! {

/// Compression level: speed vs ratio. Zstd levels 1–22 (3 = default, 22 = best ratio).
#[derive(Clone, Copy, Debug, PartialEq, Eq)]
pub enum CompressionLevel {
    /// Use implementation default (zstd 3).
    Default,
    /// Favor speed over ratio (zstd 1).
    Fast,
    /// Favor ratio over speed (zstd 19).
    Best,
    /// Explicit level (zstd 1–22).
    Level(u8),
}

impl Default for CompressionLevel {
    fn default() -> (r: Self)
        ensures
            r == CompressionLevel::Default,
    {
        CompressionLevel::Default
    }
}

/// Trait for compressors used by plugins for transparent compression.
pub trait Compression {
    /// Compress data. Returns the compressed bytes.
    fn compress(&self, data: &[u8]) -> Result<Vec<u8>, FSError>;

    /// Decompress data. Returns the original bytes.
    fn decompress(&self, data: &[u8]) -> Result<Vec<u8>, FSError>;

    /// Algorithm name for metadata (e.g. `"zstd"`).
    fn name(&self) -> &str;
}

/// The zstd level that a compression level selects: explicit levels are clamped to 1..=22.
pub open spec fn zstd_level(level: CompressionLevel) -> i32 {
    match level {
        CompressionLevel::Default => 3,
        CompressionLevel::Fast => 1,
        CompressionLevel::Best => 19,
        CompressionLevel::Level(n) => if n < 1 {
            1
        } else if n > 22 {
            22
        } else {
            n as i32
        },
    }
}

/// The zstd frame that zstd produces for `data` at `level`.
pub uninterp spec fn zstd_frame(data: Seq<u8>, level: i32) -> Seq<u8>;

/// What zstd decompression makes of `frame`: the bytes it holds, or nothing when it is
/// not valid zstd data.
pub uninterp spec fn zstd_content(frame: Seq<u8>) -> Option<Seq<u8>>;

/// `zstd::encode_all(Cursor::new(data), level)`. The result is named [`zstd_frame`], and
/// decompressing it gives `data` back (zstd is lossless). Compressing from memory into a
/// `Vec` at a level from 1 to 22 reports no error (reading a slice and writing a `Vec`
/// cannot fail); otherwise the error's text.
#[verifier::external_body]
fn zstd_encode_all(data: &[u8], level: i32) -> (r: Result<Vec<u8>, String>)
    ensures
        1 <= level <= 22 ==> r is Ok,
        r matches Ok(c) ==> c@ == zstd_frame(data@, level) && zstd_content(c@) == Some(data@),
{
    zstd::encode_all(std::io::Cursor::new(data), level).map_err(|e| e.to_string())
}

/// `zstd::decode_all(Cursor::new(data))`: the content of the data ([`zstd_content`]), or
/// the error's text when the data is not valid zstd data.
#[verifier::external_body]
fn zstd_decode_all(data: &[u8]) -> (r: Result<Vec<u8>, String>)
    ensures
        match r {
            Ok(d) => zstd_content(data@) == Some(d@),
            Err(_) => zstd_content(data@) is None,
        },
{
    zstd::decode_all(std::io::Cursor::new(data)).map_err(|e| e.to_string())
}

/// Zstd compression.
#[derive(Debug)]
pub struct ZstdCompression {
    level: i32,
}

impl ZstdCompression {
    /// The level is a zstd level from 1 to 22.
    #[verifier::type_invariant]
    spec fn inv(self) -> bool {
        1 <= self.level <= 22
    }

    /// The zstd level in use.
    pub closed spec fn spec_level(&self) -> i32 {
        self.level
    }

    /// Create a zstd compressor with the given level (1–22, 3 = default).
    pub fn new(level: CompressionLevel) -> (r: Self)
        ensures
            r.spec_level() == zstd_level(level),
    {
        let l: i32 = match level {
            CompressionLevel::Default => 3,
            CompressionLevel::Fast => 1,
            CompressionLevel::Best => 19,
            CompressionLevel::Level(n) => {
                let v = n as i32;
                if v < 1 {
                    1
                } else if v > 22 {
                    22
                } else {
                    v
                }
            },
        };
        ZstdCompression { level: l }
    }

    /// The zstd level in use.
    pub fn level(&self) -> (r: i32)
        ensures
            r == self.spec_level(),
            1 <= r <= 22,
    {
        proof {
            use_type_invariant(self);
        }
        self.level
    }
}

impl Clone for ZstdCompression {
    fn clone(&self) -> (r: Self)
        ensures
            r.spec_level() == self.spec_level(),
    {
        proof {
            use_type_invariant(self);
        }
        ZstdCompression { level: self.level }
    }
}

impl Compression for ZstdCompression {
    fn compress(&self, data: &[u8]) -> (r: Result<Vec<u8>, FSError>)
        ensures
            r matches Ok(c) && c@ == zstd_frame(data@, self.spec_level()) && zstd_content(c@)
                == Some(data@),
    {
        proof {
            use_type_invariant(self);
        }
        match zstd_encode_all(data, self.level) {
            Ok(c) => Ok(c),
            Err(text) => Err(FSError::Io { message: concat_str("zstd compress: ", text.as_str()) }),
        }
    }

    fn decompress(&self, data: &[u8]) -> (r: Result<Vec<u8>, FSError>)
        ensures
            match r {
                Ok(d) => zstd_content(data@) == Some(d@),
                Err(e) => e is Io && zstd_content(data@) is None,
            },
    {
        match zstd_decode_all(data) {
            Ok(d) => Ok(d),
            Err(text) => Err(
                FSError::Io { message: concat_str("zstd decompress: ", text.as_str()) },
            ),
        }
    }

    fn name(&self) -> (r: &str)
        ensures
            r@ == "zstd"@,
    {
        "zstd"
    }
}

/// Decompressing what compression produced gives the original bytes back: when a frame
/// was produced from `data` and decompressing that frame succeeds with `out`, then
/// `out == data`.
pub proof fn lemma_compress_roundtrip(data: Seq<u8>, frame: Seq<u8>, out: Seq<u8>)
    requires
        zstd_content(frame) == Some(data),
        zstd_content(frame) == Some(out),
    ensures
        out == data,
{
}

} // verus!
