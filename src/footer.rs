use vstd::prelude::*;

use crate::error::FormatError;
use crate::range_cache::ByteRange;

verus! {

/// Size of the trailing footer: four length bytes and four magic bytes.
pub const FOOTER_LEN: u64 = 8;

/// The four magic bytes `PAR1` that end every Parquet file.
pub open spec fn parquet_magic() -> Seq<u8> {
    seq![0x50u8, 0x41u8, 0x52u8, 0x31u8]
}

/// Little-endian value of four bytes.
pub open spec fn le_u32(b0: u8, b1: u8, b2: u8, b3: u8) -> nat {
    b0 as nat + 256 * (b1 as nat) + 65536 * (b2 as nat) + 16777216 * (b3 as nat)
}

/// The footer at the end of `bytes`: the metadata length that it announces,
/// or the format error when the bytes end in no valid footer.
pub open spec fn footer_spec(bytes: Seq<u8>) -> Result<nat, FormatError> {
    let n = bytes.len();
    if n < 8 {
        Err(FormatError::Truncated { len: n as u64 })
    } else if bytes.subrange(n - 4, n as int) != parquet_magic() {
        Err(FormatError::BadMagic)
    } else {
        Ok(le_u32(bytes[n - 8], bytes[n - 7], bytes[n - 6], bytes[n - 5]))
    }
}

/// Decodes the footer at the end of `bytes`, which may be the whole object or
/// only its trailing bytes, and returns the announced metadata length.
pub fn decode_footer(bytes: &[u8]) -> (r: Result<u32, FormatError>)
    ensures
        match footer_spec(bytes@) {
            Ok(len) => r == Ok::<u32, FormatError>(len as u32) && len <= u32::MAX,
            Err(e) => r == Err::<u32, FormatError>(e),
        },
{
    let n = bytes.len();
    if n < 8 {
        return Err(FormatError::Truncated { len: n as u64 });
    }
    let magic_ok = bytes[n - 4] == 0x50u8 && bytes[n - 3] == 0x41u8 && bytes[n - 2] == 0x52u8
        && bytes[n - 1] == 0x31u8;
    proof {
        let tail = bytes@.subrange(n - 4, n as int);
        if magic_ok {
            assert(tail =~= parquet_magic());
        } else {
            assert(tail != parquet_magic()) by {
                if tail == parquet_magic() {
                    assert(tail[0] == bytes@[n - 4]);
                    assert(tail[1] == bytes@[n - 3]);
                    assert(tail[2] == bytes@[n - 2]);
                    assert(tail[3] == bytes@[n - 1]);
                }
            }
        }
    }
    if !magic_ok {
        return Err(FormatError::BadMagic);
    }
    let len = bytes[n - 8] as u32 + 256 * (bytes[n - 7] as u32) + 65536 * (bytes[n - 6] as u32)
        + 16777216 * (bytes[n - 5] as u32);
    Ok(len)
}

/// The range that holds the footer of an object of `file_len` bytes.
pub fn footer_range(file_len: usize) -> (r: Result<ByteRange, FormatError>)
    ensures
        file_len < FOOTER_LEN ==> r == Err::<ByteRange, FormatError>(FormatError::Truncated { len: file_len as u64 }),
        file_len >= FOOTER_LEN ==> r == Ok::<ByteRange, FormatError>(ByteRange { start: (file_len - 8) as usize, end: file_len }),
{
    if file_len < 8 {
        Err(FormatError::Truncated { len: file_len as u64 })
    } else {
        Ok(ByteRange { start: file_len - 8, end: file_len })
    }
}

/// Where the metadata payload of `metadata_len` bytes lies in an object of
/// `file_len` bytes: immediately before the footer.
pub open spec fn metadata_range_spec(file_len: nat, metadata_len: nat) -> Result<ByteRange, FormatError> {
    if file_len < metadata_len + 8 {
        Err(FormatError::MetadataOutOfRange { metadata_len: metadata_len as u64, file_len: file_len as u64 })
    } else {
        Ok(ByteRange { start: (file_len - 8 - metadata_len) as usize, end: (file_len - 8) as usize })
    }
}

/// The range of the metadata payload that the footer announces.
pub fn metadata_range(file_len: usize, metadata_len: u32) -> (r: Result<ByteRange, FormatError>)
    ensures
        r == metadata_range_spec(file_len as nat, metadata_len as nat),
{
    if (file_len as u128) < (metadata_len as u128) + 8 {
        Err(FormatError::MetadataOutOfRange { metadata_len: metadata_len as u64, file_len: file_len as u64 })
    } else {
        Ok(ByteRange { start: file_len - 8 - metadata_len as usize, end: file_len - 8 })
    }
}

/// Where the metadata payload of an object of `file_len` bytes lies, given
/// the object's last bytes `tail` (at least the footer).
pub open spec fn locate_metadata_spec(file_len: nat, tail: Seq<u8>) -> Result<ByteRange, FormatError> {
    match footer_spec(tail) {
        Ok(len) => metadata_range_spec(file_len, len),
        Err(e) => Err(e),
    }
}

/// Decodes the footer in `tail`, the last bytes of an object of `file_len`
/// bytes, and returns the range of the metadata payload to read next.
pub fn locate_metadata(file_len: usize, tail: &[u8]) -> (r: Result<ByteRange, FormatError>)
    ensures
        r == locate_metadata_spec(file_len as nat, tail@),
{
    match decode_footer(tail) {
        Ok(len) => metadata_range(file_len, len),
        Err(e) => Err(e),
    }
}

} // verus!
