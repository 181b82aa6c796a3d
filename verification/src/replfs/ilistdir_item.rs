//! One entry of a directory listing, as the device reports it.

use super::attr::FileType;
use super::literal::{
    all_unsigned, fields, parse_all_unsigned, split_fields, trim, trim_matches, ParseError,
    CLOSE_PAREN, OPEN_PAREN, QUOTE,
};
use vstd::prelude::*;
use vstd::slice::{slice_subrange, slice_to_vec};

verus! {

/// The type code with which the device marks a directory.
pub const DIRECTORY_TYPE_CODE: u64 = 0x4000;

/// One entry of a directory listing.
#[derive(Debug)]
pub struct IListDirItem {
    /// The name of the entry, without quotes.
    pub name: Vec<u8>,
    /// A directory where the type code says so, else a regular file.
    pub item_type: FileType,
    /// The inode number on the device.
    pub inode: u64,
    /// The size in bytes, where the device reports one.
    pub size: Option<u64>,
}

/// What an entry of a directory listing says.
pub struct ListingItem {
    pub name: Seq<u8>,
    pub item_type: FileType,
    pub inode: u64,
    pub size: Option<u64>,
}

impl View for IListDirItem {
    type V = ListingItem;

    open spec fn view(&self) -> ListingItem {
        ListingItem {
            name: self.name@,
            item_type: self.item_type,
            inode: self.inode,
            size: self.size,
        }
    }
}

/// The kind that a type code stands for.
pub open spec fn kind_of(type_code: u64) -> FileType {
    if type_code == DIRECTORY_TYPE_CODE {
        FileType::Directory
    } else {
        FileType::RegularFile
    }
}

/// The entry that a tuple states: a name, a type code, an inode number and
/// perhaps a size, separated by a comma and a space, with or without round
/// brackets around them. The name loses its quotes.
pub open spec fn item_of(tuple: Seq<u8>) -> Result<ListingItem, ParseError> {
    let entries = fields(trim(tuple, OPEN_PAREN, CLOSE_PAREN));
    if entries.len() != 3 && entries.len() != 4 {
        Err(ParseError::FieldCount)
    } else {
        match all_unsigned(entries.skip(1)) {
            None => Err(ParseError::Integer),
            Some(numbers) => Ok(
                ListingItem {
                    name: trim(entries[0], QUOTE, QUOTE),
                    item_type: kind_of(numbers[0]),
                    inode: numbers[1],
                    size: if entries.len() == 4 {
                        Some(numbers[2])
                    } else {
                        None
                    },
                },
            ),
        }
    }
}

impl IListDirItem {
    /// Reads one entry of a directory listing.
    pub fn try_from(tuple: &[u8]) -> (item: Result<IListDirItem, ParseError>)
        ensures
            match item {
                Ok(entry) => item_of(tuple@) == Ok::<ListingItem, ParseError>(entry@),
                Err(e) => item_of(tuple@) == Err::<ListingItem, ParseError>(e),
            },
    {
        let inner = trim_matches(tuple, OPEN_PAREN, CLOSE_PAREN);
        let ranges = split_fields(inner);
        if ranges.len() != 3 && ranges.len() != 4 {
            return Err(ParseError::FieldCount);
        }
        match parse_all_unsigned(inner, &ranges, 1) {
            None => Err(ParseError::Integer),
            Some(numbers) => {
                let (first, last) = ranges[0];
                let name = trim_matches(slice_subrange(inner, first, last), QUOTE, QUOTE);
                Ok(
                    IListDirItem {
                        name: slice_to_vec(name),
                        item_type: if numbers[0] == DIRECTORY_TYPE_CODE {
                            FileType::Directory
                        } else {
                            FileType::RegularFile
                        },
                        inode: numbers[1],
                        size: if ranges.len() == 4 {
                            Some(numbers[2])
                        } else {
                            None
                        },
                    },
                )
            },
        }
    }
}

} // verus!
