//! An open chip: what it says of itself, and of its lines.

use vstd::prelude::*;
use crate::error::Error;
use crate::line::{AbiVersion, LineInfo, LineInfoView};
use crate::v1;
use crate::v2;
use crate::v2_data;
use crate::wire::{get_name, get_u32, put_u32, put_zeros, text_of, u32_at, u32_bytes, zeros, Endian};

verus! {

/// The size of what a chip says of itself.
pub const CHIP_INFO_SIZE: usize = 68;

/// What a chip says of itself. The path is the one it was opened by.
#[derive(Clone, Debug, PartialEq, Eq)]
pub struct ChipInfo {
    pub path: String,
    pub name: Vec<u8>,
    pub label: Vec<u8>,
    pub num_lines: u32,
}

pub struct ChipInfoView {
    pub path: Seq<char>,
    pub name: Seq<u8>,
    pub label: Seq<u8>,
    pub num_lines: u32,
}

impl View for ChipInfo {
    type V = ChipInfoView;

    open spec fn view(&self) -> ChipInfoView {
        ChipInfoView { path: self.path@, name: self.name@, label: self.label@, num_lines: self.num_lines }
    }
}

/// What the 68 bytes of chip information say: a name, a label and the
/// number of lines. They say nothing where they are not 68.
pub open spec fn chip_info_of(path: Seq<char>, buf: Seq<u8>, e: Endian) -> Option<ChipInfoView> {
    if buf.len() != CHIP_INFO_SIZE {
        None
    } else {
        Some(
            ChipInfoView {
                path,
                name: text_of(buf.subrange(0, 32)),
                label: text_of(buf.subrange(32, 64)),
                num_lines: u32_at(buf, 64, e),
            },
        )
    }
}

/// The bytes that ask a chip about the line at an offset: the layout of
/// line information, empty but for the offset.
pub open spec fn line_info_query_bytes(abi: AbiVersion, offset: u32, e: Endian) -> Seq<u8> {
    match abi {
        AbiVersion::V1 => u32_bytes(offset, e) + zeros(68),
        AbiVersion::V2 => zeros(64) + u32_bytes(offset, e) + zeros(188),
    }
}

/// What the kernel's answer says of the line asked about; nothing where
/// the answer cannot be read, or speaks of another line.
pub open spec fn line_info_of(abi: AbiVersion, offset: u32, reply: Seq<u8>, e: Endian) -> Option<
    LineInfoView,
> {
    let read = match abi {
        AbiVersion::V1 => v1::info_of(reply, e),
        AbiVersion::V2 => v2_data::info_of(reply, e),
    };
    match read {
        Some(info) => if info.offset == offset {
            Some(info)
        } else {
            None
        },
        None => None,
    }
}

/// A chip that was opened, for as long as it is not closed.
pub struct ChipHandle {
    info: ChipInfo,
    abi: AbiVersion,
    endian: Endian,
    fd: i32,
    open: bool,
}

impl ChipHandle {
    /// What the chip said of itself when it was opened.
    pub closed spec fn info(&self) -> ChipInfoView {
        self.info@
    }

    /// The generation selected for the chip when it was opened.
    pub closed spec fn abi(&self) -> AbiVersion {
        self.abi
    }

    /// The byte order in which the chip is spoken to.
    pub closed spec fn endian(&self) -> Endian {
        self.endian
    }

    /// Whether the chip can still be asked.
    pub closed spec fn is_open(&self) -> bool {
        self.open
    }

    /// The descriptor that the chip was opened with.
    pub closed spec fn fd(&self) -> i32 {
        self.fd
    }

    /// Why nothing is said of the line at an offset: the chip is closed,
    /// or has no such line.
    pub open spec fn line_error(&self, offset: u32) -> Option<Error> {
        if !self.is_open() {
            Some(Error::Closed)
        } else if offset >= self.info().num_lines {
            Some(Error::NotFound)
        } else {
            None
        }
    }

    /// Takes what an opened chip says of itself, and the generation
    /// selected for it.
    pub fn opened(path: String, fd: i32, abi: AbiVersion, endian: Endian, reply: &[u8]) -> (r: Result<
        ChipHandle,
        Error,
    >)
        ensures
            match r {
                Ok(chip) => {
                    &&& chip_info_of(path@, reply@, endian) == Some(chip.info())
                    &&& chip.abi() == abi
                    &&& chip.endian() == endian
                    &&& chip.fd() == fd
                    &&& chip.is_open()
                },
                Err(err) => err == Error::ProtocolError && chip_info_of(path@, reply@, endian) is None,
            },
    {
        if reply.len() != CHIP_INFO_SIZE {
            return Err(Error::ProtocolError);
        }
        let info = ChipInfo {
            path,
            name: get_name(reply, 0),
            label: get_name(reply, 32),
            num_lines: get_u32(reply, 64, endian),
        };
        Ok(ChipHandle { info, abi, endian, fd, open: true })
    }

    /// The generation selected for the chip.
    pub fn abi_version(&self) -> (r: AbiVersion)
        ensures
            r == self.abi(),
    {
        self.abi
    }

    /// The number of lines of the chip.
    pub fn num_lines(&self) -> (r: Result<u32, Error>)
        ensures
            r == if self.is_open() {
                Ok::<u32, Error>(self.info().num_lines)
            } else {
                Err::<u32, Error>(Error::Closed)
            },
    {
        if self.open {
            Ok(self.info.num_lines)
        } else {
            Err(Error::Closed)
        }
    }

    /// What the chip says of itself.
    pub fn chip_info(&self) -> (r: Result<&ChipInfo, Error>)
        ensures
            match r {
                Ok(info) => self.is_open() && info@ == self.info(),
                Err(err) => err == Error::Closed && !self.is_open(),
            },
    {
        if self.open {
            Ok(&self.info)
        } else {
            Err(Error::Closed)
        }
    }

    /// The bytes that ask the chip about the line at an offset.
    pub fn line_info_query(&self, offset: u32) -> (r: Result<Vec<u8>, Error>)
        ensures
            match r {
                Ok(bytes) => self.line_error(offset) is None && bytes@ == line_info_query_bytes(
                    self.abi(),
                    offset,
                    self.endian(),
                ),
                Err(err) => self.line_error(offset) == Some(err),
            },
    {
        if !self.open {
            return Err(Error::Closed);
        }
        if offset >= self.info.num_lines {
            return Err(Error::NotFound);
        }
        let mut out: Vec<u8> = Vec::new();
        match self.abi {
            AbiVersion::V1 => {
                put_u32(&mut out, offset, self.endian);
                put_zeros(&mut out, 68);
            },
            AbiVersion::V2 => {
                put_zeros(&mut out, 64);
                put_u32(&mut out, offset, self.endian);
                put_zeros(&mut out, 188);
            },
        }
        assert(out@ =~= line_info_query_bytes(self.abi(), offset, self.endian()));
        Ok(out)
    }

    /// Reads what the chip answered about the line at an offset.
    pub fn line_info(&self, offset: u32, reply: &[u8]) -> (r: Result<LineInfo, Error>)
        ensures
            match r {
                Ok(info) => self.line_error(offset) is None && line_info_of(
                    self.abi(),
                    offset,
                    reply@,
                    self.endian(),
                ) == Some(info@),
                Err(err) => match self.line_error(offset) {
                    Some(refused) => err == refused,
                    None => err == Error::ProtocolError && line_info_of(
                        self.abi(),
                        offset,
                        reply@,
                        self.endian(),
                    ) is None,
                },
            },
    {
        if !self.open {
            return Err(Error::Closed);
        }
        if offset >= self.info.num_lines {
            return Err(Error::NotFound);
        }
        let read = match self.abi {
            AbiVersion::V1 => v1::decode_line_info(reply, self.endian),
            AbiVersion::V2 => v2_data::decode_line_info(reply, self.endian),
        };
        match read {
            Ok(info) => {
                if info.offset != offset {
                    return Err(Error::ProtocolError);
                }
                Ok(info)
            },
            Err(_) => Err(Error::ProtocolError),
        }
    }

    /// The descriptor to act on, while the chip is open.
    pub fn descriptor(&self) -> (r: Result<i32, Error>)
        ensures
            r == if self.is_open() {
                Ok::<i32, Error>(self.fd())
            } else {
                Err::<i32, Error>(Error::Closed)
            },
    {
        if self.open {
            Ok(self.fd)
        } else {
            Err(Error::Closed)
        }
    }

    /// Closes the chip, and hands out the descriptor to close. There is
    /// none where the chip was closed before: to close it again does
    /// nothing.
    pub fn close(&mut self) -> (r: Option<i32>)
        ensures
            !final(self).is_open(),
            r == if old(self).is_open() {
                Some(old(self).fd())
            } else {
                None
            },
            final(self).info() == old(self).info(),
            final(self).abi() == old(self).abi(),
            final(self).endian() == old(self).endian(),
            final(self).fd() == old(self).fd(),
    {
        let was = self.open;
        self.open = false;
        if was {
            Some(self.fd)
        } else {
            None
        }
    }
}

} // verus!
