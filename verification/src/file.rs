//! Recognition of a compressed stream by its leading bytes.

use vstd::prelude::*;

verus! {

/// The compression schemes that an input may use.
#[derive(Debug, Clone, Copy, PartialEq, Eq, Structural)]
pub enum CompressionFormat {
    Gzip,
    Bzip,
    Lzma,
    No,
}

/// The leading bytes of a gzip stream, read as one big-endian number.
pub const GZIP_MAGIC: u64 = 0x1F8B;

/// The leading bytes of a bzip2 stream, read as one big-endian number.
pub const BZIP_MAGIC: u64 = 0x425A;

/// The leading bytes of an xz stream, read as one big-endian number.
pub const LZMA_MAGIC: u64 = 0xFD377A585A;

/// The number that stands for an uncompressed stream: the one after
/// `LZMA_MAGIC`.
pub const NO_MAGIC: u64 = 0xFD377A585B;

/// The first `n` bytes of `bytes` read as one big-endian number.
pub open spec fn big_endian(bytes: Seq<u8>, n: nat) -> nat
    decreases n,
{
    if n == 0 {
        0
    } else {
        big_endian(bytes, (n - 1) as nat) * 256 + bytes[n - 1] as nat
    }
}

/// The format that the first five bytes of a stream announce: xz by its
/// five-byte signature, else gzip or bzip2 by their two-byte signatures,
/// else none.
pub open spec fn announced_format(bytes: Seq<u8>) -> CompressionFormat {
    if bytes[0] == 0xFD && bytes[1] == 0x37 && bytes[2] == 0x7A && bytes[3] == 0x58 && bytes[4]
        == 0x5A {
        CompressionFormat::Lzma
    } else if bytes[0] == 0x1F && bytes[1] == 0x8B {
        CompressionFormat::Gzip
    } else if bytes[0] == 0x42 && bytes[1] == 0x5A {
        CompressionFormat::Bzip
    } else {
        CompressionFormat::No
    }
}

impl CompressionFormat {
    /// The number that identifies this format.
    pub open spec fn magic(self) -> u64 {
        match self {
            CompressionFormat::Gzip => GZIP_MAGIC,
            CompressionFormat::Bzip => BZIP_MAGIC,
            CompressionFormat::Lzma => LZMA_MAGIC,
            CompressionFormat::No => NO_MAGIC,
        }
    }

    /// The format whose number is `value`, if there is one.
    pub open spec fn with_magic(value: u64) -> Option<CompressionFormat> {
        if value == GZIP_MAGIC {
            Some(CompressionFormat::Gzip)
        } else if value == BZIP_MAGIC {
            Some(CompressionFormat::Bzip)
        } else if value == LZMA_MAGIC {
            Some(CompressionFormat::Lzma)
        } else if value == NO_MAGIC {
            Some(CompressionFormat::No)
        } else {
            None
        }
    }

    /// The format that `value` identifies, if it identifies one.
    pub fn from_u64(value: u64) -> (format: Option<CompressionFormat>)
        ensures
            format == Self::with_magic(value),
            format matches Some(f) ==> f.magic() == value,
            format.is_none() ==> forall|f: CompressionFormat| f.magic() != value,
    {
        if value == GZIP_MAGIC {
            Some(CompressionFormat::Gzip)
        } else if value == BZIP_MAGIC {
            Some(CompressionFormat::Bzip)
        } else if value == LZMA_MAGIC {
            Some(CompressionFormat::Lzma)
        } else if value == NO_MAGIC {
            Some(CompressionFormat::No)
        } else {
            None
        }
    }
}

/// Reads the first `n` bytes of `bytes` as one big-endian number.
fn leading_value(bytes: &[u8], n: usize) -> (value: u64)
    requires
        n <= 5,
        n <= bytes@.len(),
    ensures
        value == big_endian(bytes@, n as nat),
{
    let mut value: u64 = 0;
    let mut i: usize = 0;
    while i < n
        invariant
            i <= n <= 5,
            n <= bytes@.len(),
            value == big_endian(bytes@, i as nat),
            value < pow256(i as nat),
        decreases n - i,
    {
        proof {
            reveal_with_fuel(pow256, 6);
        }
        value = value * 256 + bytes[i] as u64;
        i = i + 1;
    }
    value
}

/// 256 to the power `n`.
pub open spec fn pow256(n: nat) -> nat
    decreases n,
{
    if n == 0 {
        1
    } else {
        256 * pow256((n - 1) as nat)
    }
}

/// Tells from the first five bytes of a stream how it is compressed.
pub fn get_compression(in_stream: &[u8]) -> (format: CompressionFormat)
    requires
        in_stream@.len() >= 5,
    ensures
        format == announced_format(in_stream@),
{
    let five_bit_val = leading_value(in_stream, 5);
    let two_bit_val = leading_value(in_stream, 2);
    proof {
        reveal_with_fuel(big_endian, 6);
    }
    if CompressionFormat::from_u64(five_bit_val) == Some(CompressionFormat::Lzma) {
        return CompressionFormat::Lzma;
    }
    match CompressionFormat::from_u64(two_bit_val) {
        Some(CompressionFormat::Gzip) => CompressionFormat::Gzip,
        Some(CompressionFormat::Bzip) => CompressionFormat::Bzip,
        _ => CompressionFormat::No,
    }
}

} // verus!
