use crate::error::{Error, Result};
use vstd::prelude::*;

verus! {

/// The type bits of a directory entry or stat result, as the platform numbers them.
pub const DT_UNKNOWN: u8 = 0;
pub const DT_FIFO: u8 = 1;
pub const DT_CHR: u8 = 2;
pub const DT_DIR: u8 = 4;
pub const DT_BLK: u8 = 6;
pub const DT_REG: u8 = 8;
pub const DT_LNK: u8 = 10;
pub const DT_SOCK: u8 = 12;
pub const DT_WHT: u8 = 14;

/// The kind of a file, as recovered from a stat result.
#[derive(Debug, Clone, Copy, PartialEq, Eq, Structural)]
pub enum FileType {
    Unknown,
    Fifo,
    Character,
    Directory,
    Block,
    Regular,
    Link,
    Socket,
    Whiteout,
}

/// The type bits of a mode: its top four bits.
pub open spec fn type_bits(mode: u16) -> u8 {
    (mode / 4096) as u8
}

/// The file type that a value of the type bits stands for, if any.
pub open spec fn file_type_of(bits: u8) -> Option<FileType> {
    if bits == DT_UNKNOWN {
        Some(FileType::Unknown)
    } else if bits == DT_FIFO {
        Some(FileType::Fifo)
    } else if bits == DT_CHR {
        Some(FileType::Character)
    } else if bits == DT_DIR {
        Some(FileType::Directory)
    } else if bits == DT_BLK {
        Some(FileType::Block)
    } else if bits == DT_REG {
        Some(FileType::Regular)
    } else if bits == DT_LNK {
        Some(FileType::Link)
    } else if bits == DT_SOCK {
        Some(FileType::Socket)
    } else if bits == DT_WHT {
        Some(FileType::Whiteout)
    } else {
        None
    }
}

impl FileType {
    /// Reads the file type from the `st_mode` field of a stat result.
    pub fn try_from(mode: u16) -> (r: Result<FileType>)
        ensures
            match file_type_of(type_bits(mode)) {
                Some(t) => r == Ok::<FileType, Error>(t),
                None => r is Err && r->Err_0 == Error::InvalidFileType(type_bits(mode)),
            },
    {
        let bits: u8 = (mode / 4096) as u8;
        if bits == DT_UNKNOWN {
            Ok(FileType::Unknown)
        } else if bits == DT_FIFO {
            Ok(FileType::Fifo)
        } else if bits == DT_CHR {
            Ok(FileType::Character)
        } else if bits == DT_DIR {
            Ok(FileType::Directory)
        } else if bits == DT_BLK {
            Ok(FileType::Block)
        } else if bits == DT_REG {
            Ok(FileType::Regular)
        } else if bits == DT_LNK {
            Ok(FileType::Link)
        } else if bits == DT_SOCK {
            Ok(FileType::Socket)
        } else if bits == DT_WHT {
            Ok(FileType::Whiteout)
        } else {
            Err(Error::InvalidFileType(bits))
        }
    }
}

} // verus!
