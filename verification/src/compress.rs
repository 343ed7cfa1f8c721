//! Compression-format detection from magic bytes, and the choice of a
//! decompression filter among the executables found on the machine.

use vstd::prelude::*;

verus! {

/// A compression format recognized on input files.
#[derive(Debug, Clone, Copy, PartialEq, Eq, Structural)]
#[allow(non_camel_case_types)]
pub enum CompressType {
    GZIP,
    COMPRESS,
    BZIP2,
    XZ,
    ZSTD,
    LZ4,
    LZMA,
    UNCOMPRESSED,
}

/// Why no filter executable could be chosen.
#[derive(Debug, Clone, Copy, PartialEq, Eq, Structural)]
pub enum CompressError {
    /// None of the executables that handle this format was found.
    MissingExecutable,
    /// An uncompressed file needs no filter.
    NoFilterForUncompressed,
}

/// The compression format indicated by a file's first bytes (at least six
/// are needed to recognize any format).
pub open spec fn compress_type_of(b: Seq<u8>) -> CompressType {
    if b.len() < 6 {
        CompressType::UNCOMPRESSED
    } else if b[0] == 0x1f && b[1] == 0x9d {
        CompressType::COMPRESS
    } else if b[0] == 0x1f && b[1] == 0x8b && b[2] == 0x08 {
        CompressType::GZIP
    } else if b[0] == 0x1f {
        CompressType::UNCOMPRESSED
    } else if b[0] == 0x42 && b[1] == 0x5a && b[2] == 0x68 && 0x30 <= b[3] && b[3] <= 0x39 {
        CompressType::BZIP2
    } else if b[0] == 0xfd && b[1] == 0x37 && b[2] == 0x7a && b[3] == 0x58 && b[4] == 0x5a && b[5]
        == 0x00 {
        CompressType::XZ
    } else if b[0] == 0x28 && b[1] == 0xb5 && b[2] == 0x2f && b[3] == 0xfd {
        CompressType::ZSTD
    } else if b[0] == 0x04 && b[1] == 0x22 && b[2] == 0x4d && b[3] == 0x18 {
        CompressType::LZ4
    } else if b[0] == 0x5d && b[1] == 0x00 && b[2] == 0x00 {
        CompressType::LZMA
    } else {
        CompressType::UNCOMPRESSED
    }
}

/// Recognize a compression format from the first bytes read from a file.
pub fn get_compress_type(buf: &Vec<u8>) -> (r: CompressType)
    ensures
        r == compress_type_of(buf@),
{
    if buf.len() < 6 {
        return CompressType::UNCOMPRESSED;
    }
    let b0 = buf[0];
    let b1 = buf[1];
    let b2 = buf[2];
    let b3 = buf[3];
    let b4 = buf[4];
    let b5 = buf[5];
    if b0 == 0x1f && b1 == 0x9d {
        CompressType::COMPRESS
    } else if b0 == 0x1f && b1 == 0x8b && b2 == 0x08 {
        CompressType::GZIP
    } else if b0 == 0x1f {
        CompressType::UNCOMPRESSED
    } else if b0 == 0x42 && b1 == 0x5a && b2 == 0x68 && 0x30 <= b3 && b3 <= 0x39 {
        CompressType::BZIP2
    } else if b0 == 0xfd && b1 == 0x37 && b2 == 0x7a && b3 == 0x58 && b4 == 0x5a && b5 == 0x00 {
        CompressType::XZ
    } else if b0 == 0x28 && b1 == 0xb5 && b2 == 0x2f && b3 == 0xfd {
        CompressType::ZSTD
    } else if b0 == 0x04 && b1 == 0x22 && b2 == 0x4d && b3 == 0x18 {
        CompressType::LZ4
    } else if b0 == 0x5d && b1 == 0x00 && b2 == 0x00 {
        CompressType::LZMA
    } else {
        CompressType::UNCOMPRESSED
    }
}

/// The decompression executables found on the machine, by name.
#[derive(Debug)]
pub struct CompressPaths {
    pub gzip: Option<String>,
    pub pigz: Option<String>,
    pub xz: Option<String>,
    pub bzip2: Option<String>,
    pub zstd: Option<String>,
    pub lz4: Option<String>,
    pub lzma: Option<String>,
}

/// Which executable each format uses, with its fallbacks: gzip data takes
/// pigz, then gzip, then zstd; xz, lz4 and lzma fall back to zstd; bzip2
/// and zstd have no fallback.
pub open spec fn exec_path_spec(t: CompressType, p: CompressPaths) -> Result<
    Seq<char>,
    CompressError,
> {
    match t {
        CompressType::GZIP | CompressType::COMPRESS => if p.pigz is Some {
            Ok(p.pigz->0@)
        } else if p.gzip is Some {
            Ok(p.gzip->0@)
        } else if p.zstd is Some {
            Ok(p.zstd->0@)
        } else {
            Err(CompressError::MissingExecutable)
        },
        CompressType::BZIP2 => if p.bzip2 is Some {
            Ok(p.bzip2->0@)
        } else {
            Err(CompressError::MissingExecutable)
        },
        CompressType::XZ => if p.xz is Some {
            Ok(p.xz->0@)
        } else if p.zstd is Some {
            Ok(p.zstd->0@)
        } else {
            Err(CompressError::MissingExecutable)
        },
        CompressType::LZ4 => if p.lz4 is Some {
            Ok(p.lz4->0@)
        } else if p.zstd is Some {
            Ok(p.zstd->0@)
        } else {
            Err(CompressError::MissingExecutable)
        },
        CompressType::LZMA => if p.lzma is Some {
            Ok(p.lzma->0@)
        } else if p.zstd is Some {
            Ok(p.zstd->0@)
        } else {
            Err(CompressError::MissingExecutable)
        },
        CompressType::ZSTD => if p.zstd is Some {
            Ok(p.zstd->0@)
        } else {
            Err(CompressError::MissingExecutable)
        },
        CompressType::UNCOMPRESSED => Err(CompressError::NoFilterForUncompressed),
    }
}

impl CompressType {
    /// Pick the decompression executable for this format from those
    /// available, honoring the documented fallbacks.
    pub fn get_exec_path<'a>(&self, paths: &'a CompressPaths) -> (r: Result<
        &'a String,
        CompressError,
    >)
        ensures
            match r {
                Ok(s) => exec_path_spec(*self, *paths) == Ok::<Seq<char>, CompressError>(s@),
                Err(e) => exec_path_spec(*self, *paths) == Err::<Seq<char>, CompressError>(e),
            },
    {
        match self {
            CompressType::GZIP | CompressType::COMPRESS => match paths.pigz.as_ref() {
                Some(p) => Ok(p),
                None => match paths.gzip.as_ref() {
                    Some(p) => Ok(p),
                    None => match paths.zstd.as_ref() {
                        Some(p) => Ok(p),
                        None => Err(CompressError::MissingExecutable),
                    },
                },
            },
            CompressType::BZIP2 => match paths.bzip2.as_ref() {
                Some(p) => Ok(p),
                None => Err(CompressError::MissingExecutable),
            },
            CompressType::XZ => match paths.xz.as_ref() {
                Some(p) => Ok(p),
                None => match paths.zstd.as_ref() {
                    Some(p) => Ok(p),
                    None => Err(CompressError::MissingExecutable),
                },
            },
            CompressType::LZ4 => match paths.lz4.as_ref() {
                Some(p) => Ok(p),
                None => match paths.zstd.as_ref() {
                    Some(p) => Ok(p),
                    None => Err(CompressError::MissingExecutable),
                },
            },
            CompressType::LZMA => match paths.lzma.as_ref() {
                Some(p) => Ok(p),
                None => match paths.zstd.as_ref() {
                    Some(p) => Ok(p),
                    None => Err(CompressError::MissingExecutable),
                },
            },
            CompressType::ZSTD => match paths.zstd.as_ref() {
                Some(p) => Ok(p),
                None => Err(CompressError::MissingExecutable),
            },
            CompressType::UNCOMPRESSED => Err(CompressError::NoFilterForUncompressed),
        }
    }
}

} // verus!
