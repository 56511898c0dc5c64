//! Section decompression by algorithm number: stored data (0), EFI/Tiano
//! data (1) and LZMA "alone" streams (2).

use vstd::prelude::*;
use crate::bytes::{copy_range, le32};
use crate::tiano::tiano_decompress;

verus! {

#[derive(Debug, Clone, Copy, PartialEq, Eq)]
pub enum DecompressError {
    Unsupported,
    Corrupted,
}

/// What `lzma_rs::lzma_decompress` makes of an LZMA "alone" stream (13-byte
/// header, then LZMA1 data): the decoded bytes, or nothing when it fails.
pub uninterp spec fn lzma_alone_decode(data: Seq<u8>) -> Option<Seq<u8>>;

/// Calls `lzma_rs::lzma_decompress` on `data` with an in-memory writer. The
/// contract names the outcome; how the stream decodes is not stated, beyond
/// what the source shows of its start: the 13-byte header is read, then the
/// range decoder reads its first 5 bytes, so no shorter stream decodes.
#[verifier::external_body]
fn lzma_rs_decode(data: &[u8]) -> (r: Option<Vec<u8>>)
    ensures
        match r {
            Some(v) => lzma_alone_decode(data@) == Some(v@),
            None => lzma_alone_decode(data@) is None,
        },
        r is Some ==> data@.len() >= 18,
{
    let mut output: Vec<u8> = Vec::new();
    match lzma_rs::lzma_decompress(&mut std::io::Cursor::new(data), &mut output) {
        Ok(()) => Some(output),
        Err(_) => None,
    }
}

/// The result of decompressing `data` with an algorithm other than 1:
/// algorithm 0 is stored data, 2 an LZMA stream of at least a header's 13
/// bytes; any number above 2 is unsupported.
pub open spec fn spec_decompress(data: Seq<u8>, algorithm: u8) -> Result<Seq<u8>, DecompressError> {
    if algorithm == 0 {
        Ok(data)
    } else if algorithm == 2 {
        if data.len() < 13 {
            Err(DecompressError::Corrupted)
        } else {
            match lzma_alone_decode(data) {
                Some(v) => Ok(v),
                None => Err(DecompressError::Corrupted),
            }
        }
    } else {
        Err(DecompressError::Unsupported)
    }
}

fn decompress_lzma(data: &[u8]) -> (r: Result<Vec<u8>, DecompressError>)
    ensures
        match r {
            Ok(v) => spec_decompress(data@, 2) == Ok::<Seq<u8>, DecompressError>(v@),
            Err(e) => spec_decompress(data@, 2) == Err::<Seq<u8>, DecompressError>(e),
        },
        r is Ok ==> data@.len() >= 18,
{
    if data.len() < 13 {
        return Err(DecompressError::Corrupted);
    }
    match lzma_rs_decode(data) {
        Some(v) => Ok(v),
        None => Err(DecompressError::Corrupted),
    }
}

/// What decoding EFI/Tiano data gives: data shorter than its 8-byte header
/// or than the compressed size it declares is corrupted, every failure is
/// reported as corrupted, and decoded data has the original size the header
/// declares. Data that declares no compressed bytes reads as zero bits
/// throughout, which decodes to the declared number of zero bytes.
pub open spec fn tiano_outcome(data: Seq<u8>, r: Result<Vec<u8>, DecompressError>) -> bool {
    &&& (data.len() < 8 || le32(data, 0) + 8 > data.len()) ==> r == Err::<Vec<u8>, DecompressError>(
        DecompressError::Corrupted,
    )
    &&& r matches Err(e) ==> e == DecompressError::Corrupted
    &&& r matches Ok(v) ==> data.len() >= 8 && v@.len() == le32(data, 4)
    &&& data.len() >= 8 && le32(data, 0) == 0 ==> (r matches Ok(v) && v@ == Seq::new(
        le32(data, 4) as nat,
        |i: int| 0u8,
    ))
}

/// Decodes algorithm-1 data as EFI 1.1 data (four-bit position-code
/// count), and when that fails as Tiano data (five bits).
fn decompress_tiano(data: &[u8]) -> (r: Result<Vec<u8>, DecompressError>)
    ensures
        tiano_outcome(data@, r),
{
    match tiano_decompress(data, 4) {
        Ok(v) => Ok(v),
        Err(_) => tiano_decompress(data, 5),
    }
}

/// Decompresses `data` with the numbered algorithm.
pub fn decompress(data: &[u8], algorithm: u8) -> (r: Result<Vec<u8>, DecompressError>)
    ensures
        algorithm != 1 ==> match r {
            Ok(v) => spec_decompress(data@, algorithm) == Ok::<Seq<u8>, DecompressError>(v@),
            Err(e) => spec_decompress(data@, algorithm) == Err::<Seq<u8>, DecompressError>(e),
        },
        algorithm == 1 ==> tiano_outcome(data@, r),
        algorithm == 2 && r is Ok ==> data@.len() >= 18,
{
    if algorithm == 0 {
        let n = data.len();
        let v = copy_range(data, 0, n);
        assert(v@ =~= data@);
        Ok(v)
    } else if algorithm == 1 {
        decompress_tiano(data)
    } else if algorithm == 2 {
        decompress_lzma(data)
    } else {
        Err(DecompressError::Unsupported)
    }
}

/// The dictionary size an LZMA "alone" header declares (bytes 1..5), or 0
/// for a stream shorter than that.
pub fn lzma_dictionary_size(data: &[u8]) -> (r: u32)
    ensures
        r == if data@.len() >= 5 {
            le32(data@, 1)
        } else {
            0
        },
{
    if data.len() >= 5 {
        crate::bytes::read_u32(data, 1)
    } else {
        0
    }
}

} // verus!
