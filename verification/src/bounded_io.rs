use vstd::prelude::*;

use crate::text::{decimal, decimal_string};

verus! {

pub const MAX_SOURCE_FILE_SIZE: usize = 16777216;

pub const MAX_CONFIG_FILE_SIZE: usize = 2097152;

pub const MAX_GIT_INDEX_SIZE: usize = 67108864;

/// Why a file could not be read within the limits.
pub enum BoundedReadError {
    /// An I/O error, with its description.
    Io(String),
    InvalidUtf8,
    Allocation,
    Symlink,
    TooLarge { max: usize },
}

/// What the error says after the name of the input.
pub open spec fn error_text(e: BoundedReadError) -> Seq<char> {
    match e {
        BoundedReadError::Io(error) => "could not be read: "@ + error@,
        BoundedReadError::InvalidUtf8 => "is not valid UTF-8"@,
        BoundedReadError::Allocation => "could not be buffered within memory limits"@,
        BoundedReadError::Symlink => "is a symbolic link"@,
        BoundedReadError::TooLarge { max } => "exceeds the "@ + decimal(max as nat) + "-byte size limit"@,
    }
}

impl BoundedReadError {
    /// The description of the error (what `Display` shows in the command-line tool).
    pub fn describe(&self) -> (r: String)
        ensures
            r@ == error_text(*self),
    {
        match self {
            BoundedReadError::Io(error) => {
                let mut r = "could not be read: ".to_owned();
                r.append(error.as_str());
                r
            },
            BoundedReadError::InvalidUtf8 => "is not valid UTF-8".to_owned(),
            BoundedReadError::Allocation => "could not be buffered within memory limits".to_owned(),
            BoundedReadError::Symlink => "is a symbolic link".to_owned(),
            BoundedReadError::TooLarge { max } => {
                let mut r = "exceeds the ".to_owned();
                let digits = decimal_string(*max);
                r.append(digits.as_str());
                r.append("-byte size limit");
                r
            },
        }
    }
}

/// Decides, from a file's metadata, whether it may be read: a symbolic link is refused
/// when links are rejected, and a file longer than `max_size` is too large.
pub fn check_metadata(is_symlink: bool, reject_symlinks: bool, len: u64, max_size: usize) -> (r: Result<(), BoundedReadError>)
    ensures
        match r {
            Ok(()) => !(reject_symlinks && is_symlink) && len <= max_size,
            Err(BoundedReadError::Symlink) => reject_symlinks && is_symlink,
            Err(BoundedReadError::TooLarge { max }) => !(reject_symlinks && is_symlink) && len > max_size && max == max_size,
            Err(_) => false,
        },
{
    if reject_symlinks && is_symlink {
        return Err(BoundedReadError::Symlink);
    }
    if len > max_size as u64 {
        return Err(BoundedReadError::TooLarge { max: max_size });
    }
    Ok(())
}

/// Decides whether a chunk of `chunk_len` more bytes fits after `read_so_far` bytes, and
/// the new length when it does.
pub fn admit_chunk(read_so_far: usize, chunk_len: usize, max_size: usize) -> (r: Result<usize, BoundedReadError>)
    ensures
        match r {
            Ok(n) => n == read_so_far + chunk_len && n <= max_size,
            Err(BoundedReadError::TooLarge { max }) => read_so_far + chunk_len > max_size && max == max_size,
            Err(_) => false,
        },
{
    if chunk_len > max_size || read_so_far > max_size - chunk_len {
        return Err(BoundedReadError::TooLarge { max: max_size });
    }
    Ok(read_so_far + chunk_len)
}

/// Decodes UTF-8 (`String::from_utf8`). Claims, as its documentation says, that the call
/// succeeds exactly on valid UTF-8 and that the string holds the decoded characters.
#[verifier::external_body]
pub(crate) fn utf8_string(bytes: Vec<u8>) -> (r: Option<String>)
    ensures
        match r {
            Some(s) => vstd::utf8::valid_utf8(bytes@) && s@ == vstd::utf8::decode_utf8(bytes@),
            None => !vstd::utf8::valid_utf8(bytes@),
        },
{
    match String::from_utf8(bytes) {
        Ok(s) => Some(s),
        Err(_) => None,
    }
}

/// The text of a file read within its limits: the read's error, or `InvalidUtf8` when the
/// bytes are not UTF-8.
pub fn read_bounded_utf8(read: Result<Vec<u8>, BoundedReadError>) -> (r: Result<String, BoundedReadError>)
    ensures
        match read {
            Err(e) => r == Err::<String, BoundedReadError>(e),
            Ok(bytes) => match r {
                Ok(s) => vstd::utf8::valid_utf8(bytes@) && s@ == vstd::utf8::decode_utf8(bytes@),
                Err(BoundedReadError::InvalidUtf8) => !vstd::utf8::valid_utf8(bytes@),
                Err(_) => false,
            },
        },
{
    match read {
        Err(e) => Err(e),
        Ok(bytes) => match utf8_string(bytes) {
            Some(s) => Ok(s),
            None => Err(BoundedReadError::InvalidUtf8),
        },
    }
}

} // verus!
