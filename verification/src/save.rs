//! Save-file header validation, shared by every save-file kind: version,
//! size and entry-count limits, and the whole-file checksum pre-check.

use vstd::prelude::*;

use crate::endian::Endian;
use crate::mem::{checksum_bytes, Checksum};

verus! {

/// An error returned from validating a save file. Header validation errors
/// are reported distinctly from structural decode errors, so a caller can
/// choose to force-continue past them.
#[derive(Debug, Clone, Copy, PartialEq, Eq, Structural)]
pub enum CheckSaveFileError {
    /// The buffer is too short to hold a header.
    Truncated,
    /// The parsed version number does not equal what was expected.
    IncompatibleVersion { expected: u32, found: u32 },
    /// The parsed size of the file does not equal the actual size.
    InequalFileSize { expected: u32, found: usize },
    /// The parsed size of the file exceeds the buffer's capacity.
    InvalidFileSize { expected_max: u32, found: u32 },
    /// The parsed number of user file descriptors exceeds what was expected.
    InvalidUserFileInfoNum { expected_max: u32, found: u32 },
    /// The precomputed checksum does not equal the newly computed checksum.
    InequalChecksum,
}

/// A trait for standardizing save file header implementation: the stored
/// header fields and the limits they are held against.
pub trait SaveFileHeader: Sized {
    /// The expected version number of the save data.
    spec fn version_expected_spec() -> u32;

    /// The maximum allowed number of user file descriptors.
    spec fn user_file_info_max_spec() -> u32;

    /// The maximum allowed size of the file, in bytes.
    spec fn file_size_max_spec() -> u32;

    /// The stored checksum.
    spec fn checksum_spec(&self) -> u32;

    /// The stored version number.
    spec fn version_spec(&self) -> u32;

    /// The stored number of user file descriptors.
    spec fn user_file_info_num_spec(&self) -> u32;

    /// The stored size of the file, in bytes.
    spec fn file_size_spec(&self) -> u32;

    /// Returns the precomputed checksum derived from the file data.
    fn checksum(&self) -> (r: Checksum)
        ensures
            r.spec_raw() == self.checksum_spec(),
    ;

    /// Returns the version number of the save data.
    fn version(&self) -> (r: u32)
        ensures
            r == self.version_spec(),
    ;

    /// Returns the number of stored user file descriptors.
    fn user_file_info_num(&self) -> (r: u32)
        ensures
            r == self.user_file_info_num_spec(),
    ;

    /// Returns the size of the file, in bytes.
    fn file_size(&self) -> (r: u32)
        ensures
            r == self.file_size_spec(),
    ;

    /// The expected version number of the save data.
    fn version_expected() -> (r: u32)
        ensures
            r == Self::version_expected_spec(),
    ;

    /// The maximum allowed number of user file descriptors.
    fn user_file_info_max() -> (r: u32)
        ensures
            r == Self::user_file_info_max_spec(),
    ;

    /// The maximum allowed size of the file, in bytes.
    fn file_size_max() -> (r: u32)
        ensures
            r == Self::file_size_max_spec(),
    ;
}

/// The outcome of validating a header against a buffer of `len` bytes,
/// without the checksum comparison: the first failing check names the
/// error.
pub open spec fn spec_check<H: SaveFileHeader>(h: H, len: int) -> Result<(), CheckSaveFileError> {
    if h.version_spec() != H::version_expected_spec() {
        Err(
            CheckSaveFileError::IncompatibleVersion {
                expected: H::version_expected_spec(),
                found: h.version_spec(),
            },
        )
    } else if h.file_size_spec() != len {
        Err(
            CheckSaveFileError::InequalFileSize {
                expected: h.file_size_spec(),
                found: len as usize,
            },
        )
    } else if h.file_size_spec() > H::file_size_max_spec() {
        Err(
            CheckSaveFileError::InvalidFileSize {
                expected_max: H::file_size_max_spec(),
                found: h.file_size_spec(),
            },
        )
    } else if h.user_file_info_num_spec() > H::user_file_info_max_spec() {
        Err(
            CheckSaveFileError::InvalidUserFileInfoNum {
                expected_max: H::user_file_info_max_spec(),
                found: h.user_file_info_num_spec(),
            },
        )
    } else {
        Ok(())
    }
}

/// Validates the save file header without validating the precomputed
/// checksum: the version must match, the declared size must equal the
/// buffer length and stay under the hard maximum, and the entry count must
/// stay under its hard maximum. Each failure is a distinct, named error.
pub fn check_header<H: SaveFileHeader>(h: &H, buf: &[u8]) -> (r: Result<(), CheckSaveFileError>)
    ensures
        r == spec_check(*h, buf@.len() as int),
{
    if h.version() != H::version_expected() {
        return Err(
            CheckSaveFileError::IncompatibleVersion {
                expected: H::version_expected(),
                found: h.version(),
            },
        );
    }
    if h.file_size() as usize != buf.len() {
        return Err(
            CheckSaveFileError::InequalFileSize { expected: h.file_size(), found: buf.len() },
        );
    }
    if h.file_size() > H::file_size_max() {
        return Err(
            CheckSaveFileError::InvalidFileSize {
                expected_max: H::file_size_max(),
                found: h.file_size(),
            },
        );
    }
    if h.user_file_info_num() > H::user_file_info_max() {
        return Err(
            CheckSaveFileError::InvalidUserFileInfoNum {
                expected_max: H::user_file_info_max(),
                found: h.user_file_info_num(),
            },
        );
    }
    Ok(())
}

/// The outcome of the full big- or little-endian validation: the header
/// checks, then the stored checksum against the checksum of everything
/// after the checksum field.
pub open spec fn spec_check_sum<H: SaveFileHeader>(h: H, buf: Seq<u8>, e: Endian) -> Result<
    (),
    CheckSaveFileError,
> {
    match spec_check(h, buf.len() as int) {
        Err(er) => Err(er),
        Ok(()) => {
            if h.checksum_spec() == checksum_bytes(buf.skip(4), e) {
                Ok(())
            } else {
                Err(CheckSaveFileError::InequalChecksum)
            }
        },
    }
}

/// Validates the save file header in the given byte order, including the
/// checksum over the buffer minus the checksum field itself.
pub fn check_header_sum<H: SaveFileHeader>(h: &H, buf: &[u8], e: Endian) -> (r: Result<
    (),
    CheckSaveFileError,
>)
    requires
        buf@.len() >= 4,
    ensures
        r == spec_check_sum(*h, buf@, e),
{
    match check_header(h, buf) {
        Err(er) => Err(er),
        Ok(()) => {
            let rest = vstd::slice::slice_subrange(buf, 4, buf.len());
            proof {
                assert(buf@.subrange(4, buf@.len() as int) =~= buf@.skip(4));
            }
            let computed = match e {
                Endian::Big => Checksum::from_be_bytes(rest),
                Endian::Little => Checksum::from_le_bytes(rest),
            };
            if h.checksum().into_raw() == computed.into_raw() {
                Ok(())
            } else {
                Err(CheckSaveFileError::InequalChecksum)
            }
        },
    }
}

} // verus!
