//! The wire layouts of the first generation of the interface.
//!
//! A handle request holds up to 64 lines that share one set of flags. A
//! line whose edges are wanted is asked for alone, with an event request.
//! This generation knows no debounce period.

use vstd::prelude::*;
use crate::error::Error;
use crate::line::{
    Bias, Direction, EdgeDetection, EdgeKind, LineConfig, LineInfo, LineInfoView, LineSpec, Value,
};
use crate::wire::{
    get_bytes, get_name, get_u32, get_u64, name_field, put_name, put_u32, put_u32s, put_zeros,
    text_of, u32_at, u32_bytes, u32s_bytes, u64_at, zeros, Endian,
};

verus! {

/// The most lines of one request.
pub const LINES_MAX: usize = 64;

// The sizes of the layouts, in bytes.
pub const HANDLE_REQUEST_SIZE: usize = 364;

pub const HANDLE_DATA_SIZE: usize = 64;

pub const LINE_INFO_SIZE: usize = 72;

pub const EVENT_REQUEST_SIZE: usize = 48;

pub const EVENT_DATA_SIZE: usize = 16;

// The flags of a handle request. Line information reports polarity and
// bias by the same flags.
pub const FLAG_INPUT: u32 = 1;

pub const FLAG_OUTPUT: u32 = 2;

pub const FLAG_ACTIVE_LOW: u32 = 4;

pub const FLAG_OPEN_DRAIN: u32 = 8;

pub const FLAG_OPEN_SOURCE: u32 = 16;

pub const FLAG_BIAS_PULL_UP: u32 = 32;

pub const FLAG_BIAS_PULL_DOWN: u32 = 64;

pub const FLAG_BIAS_DISABLED: u32 = 128;

// The flags that line information has of its own.
pub const INFO_FLAG_USED: u32 = 1;

pub const INFO_FLAG_OUTPUT: u32 = 2;

// The flags of an event request, and the numbers that tell the kinds of
// edge event apart.
pub const EVENT_FLAG_RISING: u32 = 1;

pub const EVENT_FLAG_FALLING: u32 = 2;

pub const EVENT_ID_RISING: u32 = 1;

pub const EVENT_ID_FALLING: u32 = 2;

/// A request for lines that share their flags. `values` gives each line
/// the byte that says which level it is driven to as an output.
#[derive(Clone, Debug, PartialEq, Eq)]
pub struct HandleRequest {
    pub offsets: Vec<u32>,
    pub flags: u32,
    pub values: Vec<u8>,
    pub consumer: Vec<u8>,
}

pub struct HandleRequestView {
    pub offsets: Seq<u32>,
    pub flags: u32,
    pub values: Seq<u8>,
    pub consumer: Seq<u8>,
}

impl View for HandleRequest {
    type V = HandleRequestView;

    open spec fn view(&self) -> HandleRequestView {
        HandleRequestView {
            offsets: self.offsets@,
            flags: self.flags,
            values: self.values@,
            consumer: self.consumer@,
        }
    }
}

/// A request for the edges of one line.
#[derive(Clone, Debug, PartialEq, Eq)]
pub struct EventRequest {
    pub offset: u32,
    pub handle_flags: u32,
    pub event_flags: u32,
    pub consumer: Vec<u8>,
}

pub struct EventRequestView {
    pub offset: u32,
    pub handle_flags: u32,
    pub event_flags: u32,
    pub consumer: Seq<u8>,
}

impl View for EventRequest {
    type V = EventRequestView;

    open spec fn view(&self) -> EventRequestView {
        EventRequestView {
            offset: self.offset,
            handle_flags: self.handle_flags,
            event_flags: self.event_flags,
            consumer: self.consumer@,
        }
    }
}

impl HandleRequestView {
    /// A request can be written when it has 64 lines at most, and a value
    /// for each.
    pub open spec fn encodable(self) -> bool {
        self.offsets.len() <= LINES_MAX && self.values.len() == self.offsets.len()
    }
}

/// The 364 bytes of a handle request: 64 places for offsets, the flags, 64
/// places for values, the consumer label, the number of lines, and the
/// place where the kernel puts the descriptor.
pub open spec fn handle_request_bytes(r: HandleRequestView, e: Endian) -> Seq<u8> {
    u32s_bytes(r.offsets, e) + zeros(4 * (LINES_MAX - r.offsets.len())) + u32_bytes(r.flags, e)
        + r.values + zeros(LINES_MAX - r.values.len()) + name_field(r.consumer) + u32_bytes(
        r.offsets.len() as u32,
        e,
    ) + zeros(4)
}

/// The handle request that a buffer holds; none where the buffer has not
/// the size of one, or claims more than 64 lines.
pub open spec fn handle_request_of(buf: Seq<u8>, e: Endian) -> Option<HandleRequestView> {
    let n = u32_at(buf, 356, e);
    if buf.len() != HANDLE_REQUEST_SIZE || n > LINES_MAX {
        None
    } else {
        Some(
            HandleRequestView {
                offsets: Seq::new(n as nat, |i: int| u32_at(buf, 4 * i, e)),
                flags: u32_at(buf, 256, e),
                values: buf.subrange(260, 260 + n),
                consumer: text_of(buf.subrange(324, 356)),
            },
        )
    }
}

/// The 48 bytes of an event request.
pub open spec fn event_request_bytes(r: EventRequestView, e: Endian) -> Seq<u8> {
    u32_bytes(r.offset, e) + u32_bytes(r.handle_flags, e) + u32_bytes(r.event_flags, e) + name_field(
        r.consumer,
    ) + zeros(4)
}

/// The event request that a buffer holds; none where the buffer has not
/// the size of one.
pub open spec fn event_request_of(buf: Seq<u8>, e: Endian) -> Option<EventRequestView> {
    if buf.len() != EVENT_REQUEST_SIZE {
        None
    } else {
        Some(
            EventRequestView {
                offset: u32_at(buf, 0, e),
                handle_flags: u32_at(buf, 4, e),
                event_flags: u32_at(buf, 8, e),
                consumer: text_of(buf.subrange(12, 44)),
            },
        )
    }
}

fn put_bytes(out: &mut Vec<u8>, bytes: &Vec<u8>)
    ensures
        final(out)@ == old(out)@ + bytes@,
{
    let mut i: usize = 0;
    assert(out@ =~= old(out)@ + bytes@.subrange(0, 0));
    while i < bytes.len()
        invariant
            i <= bytes@.len(),
            out@ == old(out)@ + bytes@.subrange(0, i as int),
        decreases bytes@.len() - i,
    {
        out.push(bytes[i]);
        assert(out@ =~= old(out)@ + bytes@.subrange(0, i + 1));
        i = i + 1;
    }
    assert(bytes@.subrange(0, i as int) =~= bytes@);
}

impl HandleRequest {
    /// Writes the request.
    pub fn encode(&self, e: Endian) -> (r: Result<Vec<u8>, Error>)
        ensures
            match r {
                Ok(bytes) => self@.encodable() && bytes@ == handle_request_bytes(self@, e),
                Err(err) => err == Error::InvalidArgument && !self@.encodable(),
            },
    {
        let n = self.offsets.len();
        if n > LINES_MAX || self.values.len() != n {
            return Err(Error::InvalidArgument);
        }
        let mut out: Vec<u8> = Vec::new();
        put_u32s(&mut out, &self.offsets, e);
        put_zeros(&mut out, 4 * (LINES_MAX - n));
        put_u32(&mut out, self.flags, e);
        put_bytes(&mut out, &self.values);
        put_zeros(&mut out, LINES_MAX - n);
        put_name(&mut out, self.consumer.as_slice());
        put_u32(&mut out, n as u32, e);
        put_zeros(&mut out, 4);
        assert(out@ =~= handle_request_bytes(self@, e));
        Ok(out)
    }

    /// Reads a request.
    pub fn decode(buf: &[u8], e: Endian) -> (r: Result<HandleRequest, Error>)
        ensures
            match r {
                Ok(req) => handle_request_of(buf@, e) == Some(req@),
                Err(err) => err == Error::ProtocolError && handle_request_of(buf@, e) is None,
            },
    {
        if buf.len() != HANDLE_REQUEST_SIZE {
            return Err(Error::ProtocolError);
        }
        let n = get_u32(buf, 356, e);
        if n > LINES_MAX as u32 {
            return Err(Error::ProtocolError);
        }
        let n = n as usize;
        let mut offsets: Vec<u32> = Vec::new();
        let mut i: usize = 0;
        while i < n
            invariant
                i <= n <= LINES_MAX,
                buf@.len() == HANDLE_REQUEST_SIZE,
                offsets@.len() == i,
                forall|j: int| 0 <= j < i ==> #[trigger] offsets@[j] == u32_at(buf@, 4 * j, e),
            decreases n - i,
        {
            offsets.push(get_u32(buf, 4 * i, e));
            i = i + 1;
        }
        proof {
            assert(offsets@ =~= Seq::new(n as nat, |i: int| u32_at(buf@, 4 * i, e)));
        }
        Ok(
            HandleRequest {
                offsets,
                flags: get_u32(buf, 256, e),
                values: get_bytes(buf, 260, n),
                consumer: get_name(buf, 324),
            },
        )
    }
}

impl EventRequest {
    /// Writes the request.
    pub fn encode(&self, e: Endian) -> (r: Vec<u8>)
        ensures
            r@ == event_request_bytes(self@, e),
    {
        let mut out: Vec<u8> = Vec::new();
        put_u32(&mut out, self.offset, e);
        put_u32(&mut out, self.handle_flags, e);
        put_u32(&mut out, self.event_flags, e);
        put_name(&mut out, self.consumer.as_slice());
        put_zeros(&mut out, 4);
        assert(out@ =~= event_request_bytes(self@, e));
        out
    }

    /// Reads a request.
    pub fn decode(buf: &[u8], e: Endian) -> (r: Result<EventRequest, Error>)
        ensures
            match r {
                Ok(req) => event_request_of(buf@, e) == Some(req@),
                Err(err) => err == Error::ProtocolError && event_request_of(buf@, e) is None,
            },
    {
        if buf.len() != EVENT_REQUEST_SIZE {
            return Err(Error::ProtocolError);
        }
        Ok(
            EventRequest {
                offset: get_u32(buf, 0, e),
                handle_flags: get_u32(buf, 4, e),
                event_flags: get_u32(buf, 8, e),
                consumer: get_name(buf, 12),
            },
        )
    }
}

/// The 64 bytes that carry the levels of lines: one byte for each line,
/// in the order of the request, and zero bytes after them.
pub open spec fn data_bytes(levels: Seq<bool>) -> Seq<u8> {
    Seq::new(
        HANDLE_DATA_SIZE as nat,
        |i: int|
            if i < levels.len() && levels[i] {
                1u8
            } else {
                0u8
            },
    )
}

/// The levels of the first `n` lines that 64 bytes carry: a line is at
/// its active level where its byte is not zero.
pub open spec fn data_levels(buf: Seq<u8>, n: int) -> Option<Seq<bool>> {
    if buf.len() != HANDLE_DATA_SIZE || n > LINES_MAX || n < 0 {
        None
    } else {
        Some(Seq::new(n as nat, |i: int| buf[i] != 0))
    }
}

/// Writes the levels of lines.
pub fn encode_data(levels: &Vec<bool>) -> (r: Result<Vec<u8>, Error>)
    ensures
        match r {
            Ok(bytes) => levels@.len() <= LINES_MAX && bytes@ == data_bytes(levels@),
            Err(err) => err == Error::InvalidArgument && levels@.len() > LINES_MAX,
        },
{
    if levels.len() > LINES_MAX {
        return Err(Error::InvalidArgument);
    }
    let mut out: Vec<u8> = Vec::new();
    let mut i: usize = 0;
    while i < HANDLE_DATA_SIZE
        invariant
            i <= HANDLE_DATA_SIZE,
            out@ == data_bytes(levels@).subrange(0, i as int),
        decreases HANDLE_DATA_SIZE - i,
    {
        let b: u8 = if i < levels.len() && levels[i] {
            1
        } else {
            0
        };
        out.push(b);
        assert(out@ =~= data_bytes(levels@).subrange(0, i + 1));
        i = i + 1;
    }
    assert(data_bytes(levels@).subrange(0, i as int) =~= data_bytes(levels@));
    Ok(out)
}

/// Reads the levels of the first `n` lines.
pub fn decode_data(buf: &[u8], n: usize) -> (r: Result<Vec<bool>, Error>)
    ensures
        match r {
            Ok(levels) => data_levels(buf@, n as int) == Some(levels@),
            Err(err) => err == Error::ProtocolError && data_levels(buf@, n as int) is None,
        },
{
    if buf.len() != HANDLE_DATA_SIZE || n > LINES_MAX {
        return Err(Error::ProtocolError);
    }
    let mut out: Vec<bool> = Vec::new();
    let mut i: usize = 0;
    while i < n
        invariant
            i <= n <= LINES_MAX,
            buf@.len() == HANDLE_DATA_SIZE,
            out@.len() == i,
            forall|j: int| 0 <= j < i ==> #[trigger] out@[j] == (buf@[j] != 0),
        decreases n - i,
    {
        out.push(buf[i] != 0);
        i = i + 1;
    }
    assert(out@ =~= Seq::new(n as nat, |i: int| buf@[i] != 0));
    Ok(out)
}

/// Levels that are written and read again are the same levels.
pub proof fn lemma_data_round_trip(levels: Seq<bool>)
    requires
        levels.len() <= LINES_MAX,
    ensures
        data_levels(data_bytes(levels), levels.len() as int) == Some(levels),
{
    assert(data_levels(data_bytes(levels), levels.len() as int).unwrap() =~= levels);
}

/// The bias that the flags of line information report.
pub open spec fn info_bias_of(flags: u32) -> Option<Bias> {
    if flags & FLAG_BIAS_PULL_UP != 0 {
        Some(Bias::PullUp)
    } else if flags & FLAG_BIAS_PULL_DOWN != 0 {
        Some(Bias::PullDown)
    } else if flags & FLAG_BIAS_DISABLED != 0 {
        Some(Bias::Disabled)
    } else {
        None
    }
}

fn bias_from(flags: u32) -> (r: Option<Bias>)
    ensures
        r == info_bias_of(flags),
{
    if flags & FLAG_BIAS_PULL_UP != 0 {
        Some(Bias::PullUp)
    } else if flags & FLAG_BIAS_PULL_DOWN != 0 {
        Some(Bias::PullDown)
    } else if flags & FLAG_BIAS_DISABLED != 0 {
        Some(Bias::Disabled)
    } else {
        None
    }
}

/// The line information that a buffer holds; none where it has not the
/// size of it. This generation says nothing of edges or debounce.
pub open spec fn info_of(buf: Seq<u8>, e: Endian) -> Option<LineInfoView> {
    if buf.len() != LINE_INFO_SIZE {
        None
    } else {
        let flags = u32_at(buf, 4, e);
        Some(
            LineInfoView {
                offset: u32_at(buf, 0, e),
                name: text_of(buf.subrange(8, 40)),
                consumer: text_of(buf.subrange(40, 72)),
                used: flags & INFO_FLAG_USED != 0,
                direction: if flags & INFO_FLAG_OUTPUT != 0 {
                    Direction::Output
                } else {
                    Direction::Input
                },
                active_low: flags & FLAG_ACTIVE_LOW != 0,
                bias: info_bias_of(flags),
                edge_detection: None,
                debounce_period_us: None,
            },
        )
    }
}

/// Reads what the kernel says of a line.
pub fn decode_line_info(buf: &[u8], e: Endian) -> (r: Result<LineInfo, Error>)
    ensures
        match r {
            Ok(info) => info_of(buf@, e) == Some(info@),
            Err(err) => err == Error::ProtocolError && info_of(buf@, e) is None,
        },
{
    if buf.len() != LINE_INFO_SIZE {
        return Err(Error::ProtocolError);
    }
    let flags = get_u32(buf, 4, e);
    Ok(
        LineInfo {
            offset: get_u32(buf, 0, e),
            name: get_name(buf, 8),
            consumer: get_name(buf, 40),
            used: flags & INFO_FLAG_USED != 0,
            direction: if flags & INFO_FLAG_OUTPUT != 0 {
                Direction::Output
            } else {
                Direction::Input
            },
            active_low: flags & FLAG_ACTIVE_LOW != 0,
            bias: bias_from(flags),
            edge_detection: None,
            debounce_period_us: None,
        },
    )
}

/// The time and the kind of the edge event written at a place; none where
/// the kind is not known.
pub open spec fn event_at(buf: Seq<u8>, at: int, e: Endian) -> Option<(u64, EdgeKind)> {
    let id = u32_at(buf, at + 8, e);
    if id == EVENT_ID_RISING {
        Some((u64_at(buf, at, e), EdgeKind::Rising))
    } else if id == EVENT_ID_FALLING {
        Some((u64_at(buf, at, e), EdgeKind::Falling))
    } else {
        None
    }
}

/// Reads the edge event at a place in a buffer.
pub fn get_event(buf: &[u8], at: usize, e: Endian) -> (r: Option<(u64, EdgeKind)>)
    requires
        at + EVENT_DATA_SIZE <= buf@.len(),
    ensures
        r == event_at(buf@, at as int, e),
{
    let size = buf.len();
    assert(at + EVENT_DATA_SIZE <= size);
    let id = get_u32(buf, at + 8, e);
    if id == EVENT_ID_RISING {
        Some((get_u64(buf, at, e), EdgeKind::Rising))
    } else if id == EVENT_ID_FALLING {
        Some((get_u64(buf, at, e), EdgeKind::Falling))
    } else {
        None
    }
}

} // verus!
