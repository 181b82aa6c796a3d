//! The statistics of the device's volume.

use super::literal::{
    all_unsigned, fields, parse_all_unsigned, split_fields, trim, trim_matches, ParseError,
    CLOSE_PAREN, OPEN_PAREN,
};
use vstd::prelude::*;

verus! {

/// A snapshot of the statistics of the device's volume, in the order in
/// which the device reports them.
#[derive(Clone, Copy, Debug, PartialEq, Eq, Structural)]
pub struct FilesystemStatus {
    /// Block size.
    pub bsize: u64,
    /// Fragment size.
    pub frsize: u64,
    /// Size of the file system, in fragments.
    pub blocks: u64,
    /// Number of free blocks.
    pub bfree: u64,
    /// Number of free blocks for unprivileged users.
    pub bavail: u64,
    /// Number of inodes.
    pub files: u64,
    /// Number of free inodes.
    pub ffree: u64,
    /// Number of free inodes for unprivileged users.
    pub favail: u64,
    /// Mount flags.
    pub flag: u64,
    /// Maximum length of a file name.
    pub namemax: u64,
}

/// The number of values in a status report.
pub const STATUS_FIELDS: usize = 10;

/// The status that a report states: ten unsigned integers, separated by a
/// comma and a space, with or without round brackets around them.
pub open spec fn status_of(report: Seq<u8>) -> Result<FilesystemStatus, ParseError> {
    let entries = fields(trim(report, OPEN_PAREN, CLOSE_PAREN));
    if entries.len() != STATUS_FIELDS {
        Err(ParseError::FieldCount)
    } else {
        match all_unsigned(entries) {
            None => Err(ParseError::Integer),
            Some(values) => Ok(
                FilesystemStatus {
                    bsize: values[0],
                    frsize: values[1],
                    blocks: values[2],
                    bfree: values[3],
                    bavail: values[4],
                    files: values[5],
                    ffree: values[6],
                    favail: values[7],
                    flag: values[8],
                    namemax: values[9],
                },
            ),
        }
    }
}

impl FilesystemStatus {
    /// Reads a status report.
    pub fn try_from(report: &[u8]) -> (status: Result<FilesystemStatus, ParseError>)
        ensures
            status == status_of(report@),
    {
        let inner = trim_matches(report, OPEN_PAREN, CLOSE_PAREN);
        let ranges = split_fields(inner);
        if ranges.len() != STATUS_FIELDS {
            return Err(ParseError::FieldCount);
        }
        proof {
            assert(fields(inner@).skip(0) == fields(inner@));
        }
        match parse_all_unsigned(inner, &ranges, 0) {
            None => Err(ParseError::Integer),
            Some(values) => Ok(
                FilesystemStatus {
                    bsize: values[0],
                    frsize: values[1],
                    blocks: values[2],
                    bfree: values[3],
                    bavail: values[4],
                    files: values[5],
                    ffree: values[6],
                    favail: values[7],
                    flag: values[8],
                    namemax: values[9],
                },
            ),
        }
    }
}

} // verus!
