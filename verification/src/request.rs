//! A reservation of lines on one chip, from its making to its release.
//!
//! The request decides and the caller acts: the request says which bytes to
//! hand to the kernel, and is told what the kernel answered. Values pass
//! the kernel as physical levels; the request turns them into the values
//! that callers see, by the polarity of each line.

use vstd::pervasive::unreached;
use vstd::prelude::*;
use crate::error::{spec_from_errno, Error};
use crate::events::EventStream;
use crate::line::{configs_of, offsets_of, raw_lines, AbiVersion, LineConfig, LineSpec, Value};
use crate::v2_data::{values_bytes, LineValues};
use crate::v1;
use crate::v1_config;
use crate::v1_config::{request_for, V1Request, V1RequestView};
use crate::v2;
use crate::v2::{bit, config_bytes, request_bytes, LineRequest, LineRequestView, WireConfig};
use crate::v2_config::wire_config;
use crate::v2_config_laws::lemma_wire_config_encodable;
use crate::wire::{get_u32, put_zeros, u32_at, u64_at, zeros, Endian};

verus! {

/// Where a request stands in its life.
#[derive(Clone, Copy, Debug, PartialEq, Eq, Structural)]
pub enum State {
    /// Lines are being named; the kernel knows nothing yet.
    Building,
    /// The kernel holds the lines for the request.
    Active,
    /// The descriptor is closed. Nothing can be done with the request.
    Released,
}

/// A reservation of lines on one chip.
pub struct Request {
    state: State,
    abi: AbiVersion,
    endian: Endian,
    lines: Vec<LineSpec>,
    fd: i32,
}

/// The place of the first line with the offset.
pub open spec fn holds_at(lines: Seq<LineSpec>, offset: u32, p: int) -> bool {
    &&& 0 <= p < lines.len()
    &&& lines[p].offset == offset
    &&& forall|q: int| 0 <= q < p ==> (#[trigger] lines[q]).offset != offset
}

/// The place of a line in the request, where it is part of it.
pub open spec fn position(lines: Seq<LineSpec>, offset: u32) -> Option<int> {
    if exists|p: int| holds_at(lines, offset, p) {
        Some(choose|p: int| holds_at(lines, offset, p))
    } else {
        None
    }
}

/// Some offset is named twice.
pub open spec fn repeats(lines: Seq<LineSpec>) -> bool {
    exists|i: int, j: int| 0 <= i < j < lines.len() && (#[trigger] lines[i]).offset == (#[trigger] lines[j]).offset
}

/// Why a set of lines cannot be requested: it is empty, it is larger than
/// the generation allows, it names an offset twice, or the generation has
/// no request that serves it.
pub open spec fn request_error(abi: AbiVersion, lines: Seq<LineSpec>) -> Option<Error> {
    if lines.len() == 0 || lines.len() > abi.spec_lines_max() || repeats(lines) {
        Some(Error::InvalidArgument)
    } else {
        match abi {
            AbiVersion::V1 => v1_config::request_error(configs_of(raw_lines(lines))),
            AbiVersion::V2 => if wire_config(configs_of(raw_lines(lines))).attrs.len() > v2::ATTRS_MAX {
                Some(Error::InvalidArgument)
            } else {
                None
            },
        }
    }
}

/// The bytes that ask the kernel for the lines.
pub open spec fn request_payload(
    abi: AbiVersion,
    e: Endian,
    lines: Seq<LineSpec>,
    consumer: Seq<u8>,
    event_buffer_size: u32,
) -> Seq<u8> {
    match abi {
        AbiVersion::V1 => match request_for(raw_lines(lines), consumer) {
            V1RequestView::Handle(h) => v1::handle_request_bytes(h, e),
            V1RequestView::Event(ev) => v1::event_request_bytes(ev, e),
        },
        AbiVersion::V2 => request_bytes(
            LineRequestView {
                offsets: offsets_of(raw_lines(lines)),
                consumer,
                config: wire_config(configs_of(raw_lines(lines))),
                event_buffer_size,
            },
            e,
        ),
    }
}

/// Whether the lines are asked for with an event request.
pub open spec fn by_event(abi: AbiVersion, lines: Seq<LineSpec>) -> bool {
    abi == AbiVersion::V1 && lines.len() > 0 && lines[0].config.edge_detection is Some
}

/// The size of the kernel's answer to a request.
pub open spec fn reply_size(abi: AbiVersion, lines: Seq<LineSpec>) -> int {
    if abi == AbiVersion::V2 {
        v2::LINE_REQUEST_SIZE as int
    } else if by_event(abi, lines) {
        v1::EVENT_REQUEST_SIZE as int
    } else {
        v1::HANDLE_REQUEST_SIZE as int
    }
}

/// The descriptor that the kernel's answer grants: the answer has the size
/// of the request, speaks of as many lines as were asked for, and holds a
/// descriptor that is not negative.
pub open spec fn granted_fd(abi: AbiVersion, e: Endian, lines: Seq<LineSpec>, reply: Seq<u8>) -> Option<i32> {
    let size = reply_size(abi, lines);
    let count = if abi == AbiVersion::V2 {
        u32_at(reply, 560, e) as int
    } else if by_event(abi, lines) {
        1
    } else {
        u32_at(reply, 356, e) as int
    };
    let fd = u32_at(reply, size - 4, e);
    if reply.len() != size || count != lines.len() || fd > i32::MAX {
        None
    } else {
        Some(fd as i32)
    }
}

fn find_line(lines: &Vec<LineSpec>, offset: u32) -> (r: Option<usize>)
    ensures
        match r {
            Some(p) => position(lines@, offset) == Some(p as int) && holds_at(lines@, offset, p as int),
            None => position(lines@, offset) is None,
        },
{
    let mut p: usize = 0;
    while p < lines.len()
        invariant
            p <= lines@.len(),
            forall|q: int| 0 <= q < p ==> (#[trigger] lines@[q]).offset != offset,
        decreases lines@.len() - p,
    {
        if lines[p].offset == offset {
            proof {
                assert(holds_at(lines@, offset, p as int));
                let c = choose|c: int| holds_at(lines@, offset, c);
                assert(c == p);
            }
            return Some(p);
        }
        p = p + 1;
    }
    proof {
        assert forall|c: int| !holds_at(lines@, offset, c) by {
            if 0 <= c < lines@.len() {
                assert(lines@[c].offset != offset);
            }
        }
    }
    None
}

fn has_repeats(lines: &Vec<LineSpec>) -> (r: bool)
    ensures
        r == repeats(lines@),
{
    let n = lines.len();
    let mut j: usize = 0;
    while j < n
        invariant
            n == lines@.len(),
            j <= n,
            forall|a: int, b: int|
                0 <= a < b < j ==> (#[trigger] lines@[a]).offset != (#[trigger] lines@[b]).offset,
        decreases n - j,
    {
        let mut i: usize = 0;
        while i < j
            invariant
                n == lines@.len(),
                i <= j < n,
                forall|a: int| 0 <= a < i ==> (#[trigger] lines@[a]).offset != lines@[j as int].offset,
            decreases j - i,
        {
            if lines[i].offset == lines[j].offset {
                return true;
            }
            i = i + 1;
        }
        j = j + 1;
    }
    false
}

fn copy_lines(lines: &Vec<LineSpec>) -> (r: Vec<LineSpec>)
    ensures
        r@ == lines@,
{
    let mut out: Vec<LineSpec> = Vec::new();
    let mut i: usize = 0;
    while i < lines.len()
        invariant
            i <= lines@.len(),
            out@ == lines@.subrange(0, i as int),
        decreases lines@.len() - i,
    {
        out.push(lines[i]);
        assert(out@ =~= lines@.subrange(0, i + 1));
        i = i + 1;
    }
    assert(lines@.subrange(0, i as int) =~= lines@);
    out
}

fn to_raw(lines: &Vec<LineSpec>) -> (r: Vec<LineSpec>)
    ensures
        r@ == raw_lines(lines@),
{
    let mut out: Vec<LineSpec> = Vec::new();
    let mut i: usize = 0;
    while i < lines.len()
        invariant
            i <= lines@.len(),
            out@.len() == i,
            forall|j: int| 0 <= j < i ==> #[trigger] out@[j] == raw_lines(lines@)[j],
        decreases lines@.len() - i,
    {
        out.push(LineSpec { offset: lines[i].offset, config: lines[i].config.raw() });
        i = i + 1;
    }
    assert(out@ =~= raw_lines(lines@));
    out
}

impl Request {
    #[verifier::type_invariant]
    spec fn inv(&self) -> bool {
        self.state == State::Active ==> 0 < self.lines@.len() <= 64 && self.fd >= 0
    }

    /// Where the request stands in its life.
    pub closed spec fn state(&self) -> State {
        self.state
    }

    /// The generation of the interface that the request speaks.
    pub closed spec fn abi(&self) -> AbiVersion {
        self.abi
    }

    /// The byte order in which the request is written.
    pub closed spec fn endian(&self) -> Endian {
        self.endian
    }

    /// The lines of the request, in the order in which they were named,
    /// each with what is asked of it and, for an output, its last value.
    pub closed spec fn lines(&self) -> Seq<LineSpec> {
        self.lines@
    }

    /// The descriptor of the reservation.
    pub closed spec fn fd(&self) -> i32 {
        self.fd
    }

    /// A request that names no line yet.
    pub fn builder(abi: AbiVersion, endian: Endian) -> (r: Request)
        ensures
            r.state() == State::Building,
            r.abi() == abi,
            r.endian() == endian,
            r.lines() == Seq::<LineSpec>::empty(),
    {
        Request { state: State::Building, abi, endian, lines: Vec::new(), fd: -1 }
    }

    /// Where the request stands in its life.
    pub fn current_state(&self) -> (r: State)
        ensures
            r == self.state(),
    {
        self.state
    }

    /// The generation of the interface that the request speaks.
    pub fn abi_version(&self) -> (r: AbiVersion)
        ensures
            r == self.abi(),
    {
        self.abi
    }

    /// The number of lines named.
    pub fn num_lines(&self) -> (r: usize)
        ensures
            r == self.lines().len(),
    {
        self.lines.len()
    }

    /// The line at a place of the request.
    pub fn line(&self, p: usize) -> (r: Option<LineSpec>)
        ensures
            r == if p < self.lines().len() {
                Some(self.lines()[p as int])
            } else {
                None
            },
    {
        if p < self.lines.len() {
            Some(self.lines[p])
        } else {
            None
        }
    }

    /// The descriptor to act on, while the kernel holds the lines.
    pub fn descriptor(&self) -> (r: Option<i32>)
        ensures
            r == if self.state() == State::Active {
                Some(self.fd())
            } else {
                None
            },
            r matches Some(fd) ==> fd >= 0,
    {
        proof {
            use_type_invariant(self);
        }
        match self.state {
            State::Active => Some(self.fd),
            _ => None,
        }
    }

    /// Names one more line. Lines can be named while the request is being
    /// built.
    pub fn with_line(&mut self, offset: u32, config: LineConfig) -> (r: Result<(), Error>)
        ensures
            final(self).state() == old(self).state(),
            final(self).abi() == old(self).abi(),
            final(self).endian() == old(self).endian(),
            final(self).fd() == old(self).fd(),
            match r {
                Ok(_) => old(self).state() == State::Building && final(self).lines() == old(
                    self,
                ).lines().push(LineSpec { offset, config }),
                Err(err) => final(self).lines() == old(self).lines() && match old(self).state() {
                    State::Released => err == Error::Closed,
                    State::Active => err == Error::InvalidArgument,
                    State::Building => false,
                },
            },
    {
        proof {
            use_type_invariant(&*self);
        }
        match self.state {
            State::Released => Err(Error::Closed),
            State::Active => Err(Error::InvalidArgument),
            State::Building => {
                let mut lines = copy_lines(&self.lines);
                lines.push(LineSpec { offset, config });
                self.lines = lines;
                Ok(())
            },
        }
    }

    /// The bytes that ask the kernel for the lines named.
    ///
    /// There are bytes for every request that is being built and whose
    /// lines can be requested, and for no other.
    pub fn wire_request(&self, consumer: &[u8], event_buffer_size: u32) -> (r: Result<Vec<u8>, Error>)
        ensures
            r is Ok <==> self.state() == State::Building && request_error(self.abi(), self.lines()) is None,
            match r {
                Ok(bytes) => {
                    &&& self.refusal() is None
                    &&& bytes@ == request_payload(
                        self.abi(),
                        self.endian(),
                        self.lines(),
                        consumer@,
                        event_buffer_size,
                    )
                },
                Err(err) => self.refusal() == Some(err),
            },
    {
        match self.check() {
            Some(err) => {
                return Err(err);
            },
            None => {},
        }
        let raw = to_raw(&self.lines);
        match self.abi {
            AbiVersion::V1 => {
                match V1Request::from_lines(&raw, consumer) {
                    Ok(V1Request::Handle(h)) => {
                        match h.encode(self.endian) {
                            Ok(bytes) => Ok(bytes),
                            Err(_) => unreached(),
                        }
                    },
                    Ok(V1Request::Event(ev)) => Ok(ev.encode(self.endian)),
                    Err(_) => unreached(),
                }
            },
            AbiVersion::V2 => {
                match LineRequest::from_lines(&raw, consumer, event_buffer_size) {
                    Ok(req) => match req.encode(self.endian) {
                        Ok(bytes) => Ok(bytes),
                        Err(_) => unreached(),
                    },
                    Err(_) => unreached(),
                }
            },
        }
    }

    /// Why the request cannot be made now: it is released, it is made
    /// already, or its lines cannot be requested. Nothing is refused of a
    /// request that is being built and whose lines can be requested.
    pub open spec fn refusal(&self) -> Option<Error> {
        match self.state() {
            State::Released => Some(Error::Closed),
            State::Active => Some(Error::InvalidArgument),
            State::Building => request_error(self.abi(), self.lines()),
        }
    }

    /// Whether the request can be made now, and why not.
    pub fn check(&self) -> (r: Option<Error>)
        ensures
            r == self.refusal(),
    {
        match self.state {
            State::Released => {
                return Some(Error::Closed);
            },
            State::Active => {
                return Some(Error::InvalidArgument);
            },
            State::Building => {},
        }
        let n = self.lines.len();
        if n == 0 || n > self.abi.lines_max() || has_repeats(&self.lines) {
            return Some(Error::InvalidArgument);
        }
        let raw = to_raw(&self.lines);
        match self.abi {
            AbiVersion::V1 => {
                let empty: Vec<u8> = Vec::new();
                match V1Request::from_lines(&raw, empty.as_slice()) {
                    Ok(_) => None,
                    Err(err) => Some(err),
                }
            },
            AbiVersion::V2 => {
                let empty: Vec<u8> = Vec::new();
                match LineRequest::from_lines(&raw, empty.as_slice(), 0) {
                    Ok(_) => None,
                    Err(err) => Some(err),
                }
            },
        }
    }

    /// Takes the kernel's answer to the request: the bytes that it wrote
    /// back, or the error number with which it refused.
    ///
    /// The request becomes active where it was being built, its lines can
    /// be requested, and the answer grants a descriptor. A refusal is
    /// told by its error number: lines that another consumer holds are
    /// busy, lines that the caller has no right to are denied. An answer
    /// that does not fit the request is a protocol error. After a failure
    /// the request is as it was.
    pub fn granted(&mut self, answer: Result<&[u8], i32>) -> (r: Result<(), Error>)
        ensures
            final(self).abi() == old(self).abi(),
            final(self).endian() == old(self).endian(),
            final(self).lines() == old(self).lines(),
            r is Ok <==> old(self).refusal() is None && (answer matches Ok(reply) && granted_fd(
                old(self).abi(),
                old(self).endian(),
                old(self).lines(),
                reply@,
            ) is Some),
            match r {
                Ok(_) => {
                    &&& old(self).state() == State::Building
                    &&& request_error(old(self).abi(), old(self).lines()) is None
                    &&& final(self).state() == State::Active
                    &&& answer matches Ok(reply)
                    &&& granted_fd(old(self).abi(), old(self).endian(), old(self).lines(), reply@) == Some(
                        final(self).fd(),
                    )
                },
                Err(err) => {
                    &&& final(self).state() == old(self).state()
                    &&& final(self).fd() == old(self).fd()
                    &&& match old(self).refusal() {
                        Some(refused) => err == refused,
                        None => match answer {
                            Ok(reply) => err == Error::ProtocolError && granted_fd(
                                old(self).abi(),
                                old(self).endian(),
                                old(self).lines(),
                                reply@,
                            ) is None,
                            Err(errno) => err == spec_from_errno(errno),
                        },
                    }
                },
            },
    {
        proof {
            use_type_invariant(&*self);
        }
        match self.check() {
            Some(err) => {
                return Err(err);
            },
            None => {},
        }
        let reply = match answer {
            Ok(reply) => reply,
            Err(errno) => {
                return Err(Error::from_errno(errno));
            },
        };
        let n = self.lines.len();
        let event = match self.abi {
            AbiVersion::V1 => self.lines[0].config.edge_detection.is_some(),
            AbiVersion::V2 => false,
        };
        let size: usize = match self.abi {
            AbiVersion::V2 => v2::LINE_REQUEST_SIZE,
            AbiVersion::V1 => if event {
                v1::EVENT_REQUEST_SIZE
            } else {
                v1::HANDLE_REQUEST_SIZE
            },
        };
        if reply.len() != size {
            return Err(Error::ProtocolError);
        }
        let count: usize = match self.abi {
            AbiVersion::V2 => get_u32(reply, 560, self.endian) as usize,
            AbiVersion::V1 => if event {
                1
            } else {
                get_u32(reply, 356, self.endian) as usize
            },
        };
        let fd = get_u32(reply, size - 4, self.endian);
        if count != n || fd > 0x7fff_ffff {
            return Err(Error::ProtocolError);
        }
        self.fd = fd as i32;
        self.state = State::Active;
        Ok(())
    }

    /// The stream of the edge events of the request, before any event has
    /// been read. There is none unless the kernel holds the lines.
    pub fn event_stream(&self) -> (r: Result<EventStream, Error>)
        ensures
            match r {
                Ok(stream) => {
                    &&& self.state() == State::Active
                    &&& stream.abi() == self.abi()
                    &&& stream.endian() == self.endian()
                    &&& stream.offset() == self.lines()[0].offset
                    &&& stream.last() == 0
                    &&& stream.delivered() == 0
                    &&& stream.lost() == 0
                    &&& !stream.closed()
                },
                Err(err) => match self.state() {
                    State::Released => err == Error::Closed,
                    State::Building => err == Error::InvalidArgument,
                    State::Active => false,
                },
            },
    {
        proof {
            use_type_invariant(self);
        }
        match self.state {
            State::Released => Err(Error::Closed),
            State::Building => Err(Error::InvalidArgument),
            State::Active => Ok(EventStream::new(self.abi, self.endian, self.lines[0].offset)),
        }
    }

    /// Gives the lines up. The descriptor to close is handed out once: a
    /// request that holds no lines has none to close.
    pub fn release(&mut self) -> (r: Option<i32>)
        ensures
            final(self).state() == State::Released,
            final(self).abi() == old(self).abi(),
            final(self).endian() == old(self).endian(),
            final(self).lines() == old(self).lines(),
            r == if old(self).state() == State::Active {
                Some(old(self).fd())
            } else {
                None
            },
    {
        proof {
            use_type_invariant(&*self);
        }
        let held = match self.state {
            State::Active => Some(self.fd),
            _ => None,
        };
        self.state = State::Released;
        held
    }
}


/// The query for the lines named by the first `k` offsets: it asks for the
/// place of each.
pub open spec fn query_values(lines: Seq<LineSpec>, offsets: Seq<u32>, k: int) -> LineValues
    decreases k,
{
    if k <= 0 {
        LineValues { bits: 0, mask: 0 }
    } else {
        let earlier = query_values(lines, offsets, k - 1);
        match position(lines, offsets[k - 1]) {
            Some(p) => earlier.spec_select(p),
            None => earlier,
        }
    }
}

/// The lines with the value of the line at place `p` changed.
pub open spec fn with_value(lines: Seq<LineSpec>, p: int, v: Value) -> Seq<LineSpec> {
    lines.update(p, LineSpec { offset: lines[p].offset, config: LineConfig { value: v, ..lines[p].config } })
}

/// The lines after the first `k` updates: each update gives its line a
/// value, a later one over an earlier one, and leaves the other lines as
/// they are.
pub open spec fn written(lines: Seq<LineSpec>, updates: Seq<(u32, Value)>, k: int) -> Seq<LineSpec>
    decreases k,
{
    if k <= 0 {
        lines
    } else {
        let earlier = written(lines, updates, k - 1);
        match position(lines, updates[k - 1].0) {
            Some(p) => with_value(earlier, p, updates[k - 1].1),
            None => earlier,
        }
    }
}

/// The values that the first `k` updates send: for each line updated, the
/// physical level that its polarity makes of the value.
pub open spec fn write_values(lines: Seq<LineSpec>, updates: Seq<(u32, Value)>, k: int) -> LineValues
    decreases k,
{
    if k <= 0 {
        LineValues { bits: 0, mask: 0 }
    } else {
        let earlier = write_values(lines, updates, k - 1);
        match position(lines, updates[k - 1].0) {
            Some(p) => earlier.spec_set(p, updates[k - 1].1.physical(lines[p].config.active_low)),
            None => earlier,
        }
    }
}

/// The physical levels of all lines, by place.
pub open spec fn levels_of(lines: Seq<LineSpec>) -> Seq<bool> {
    Seq::new(lines.len(), |p: int| lines[p].config.value.physical(lines[p].config.active_low))
}

/// The level that the kernel's answer gives the line at place `p`.
pub open spec fn raw_level(abi: AbiVersion, e: Endian, reply: Seq<u8>, p: int) -> bool {
    match abi {
        AbiVersion::V1 => reply[p] != 0,
        AbiVersion::V2 => bit(u64_at(reply, 0, e), p),
    }
}

/// The lines with new configurations, each line keeping its offset.
pub open spec fn reconfigured(lines: Seq<LineSpec>, configs: Seq<LineConfig>) -> Seq<LineSpec> {
    Seq::new(lines.len(), |p: int| LineSpec { offset: lines[p].offset, config: configs[p] })
}

/// The configurations as they are asked of the kernel.
pub open spec fn raw_configs(configs: Seq<LineConfig>) -> Seq<LineConfig> {
    Seq::new(configs.len(), |p: int| configs[p].spec_raw())
}

impl Request {
    /// Why values cannot be read: the request is released, it holds no
    /// lines yet, or an offset is not part of it.
    pub open spec fn read_error(&self, offsets: Seq<u32>) -> Option<Error> {
        if self.state() == State::Released {
            Some(Error::Closed)
        } else if self.state() == State::Building {
            Some(Error::InvalidArgument)
        } else if exists|k: int| 0 <= k < offsets.len() && position(self.lines(), #[trigger] offsets[k]) is None {
            Some(Error::InvalidArgument)
        } else {
            None
        }
    }

    /// The update names a line of the request that is an output.
    pub open spec fn writable(&self, update: (u32, Value)) -> bool {
        position(self.lines(), update.0) matches Some(p) && self.lines()[p].config.spec_is_output()
    }

    /// Why values cannot be written: the request is released, it holds no
    /// lines yet, or an offset is not part of it or is no output.
    pub open spec fn write_error(&self, updates: Seq<(u32, Value)>) -> Option<Error> {
        if self.state() == State::Released {
            Some(Error::Closed)
        } else if self.state() == State::Building {
            Some(Error::InvalidArgument)
        } else if exists|k: int| 0 <= k < updates.len() && !self.writable(#[trigger] updates[k]) {
            Some(Error::InvalidArgument)
        } else {
            None
        }
    }

    /// Why the lines cannot be given new configurations: the request is
    /// released, it holds no lines yet, the generation has no way to do
    /// it, there is not one configuration for each line, or the lines
    /// would differ more than ten attributes tell apart.
    pub open spec fn reconfigure_error(&self, configs: Seq<LineConfig>) -> Option<Error> {
        if self.state() == State::Released {
            Some(Error::Closed)
        } else if self.state() == State::Building {
            Some(Error::InvalidArgument)
        } else if self.abi() == AbiVersion::V1 {
            Some(Error::Unsupported)
        } else if configs.len() != self.lines().len() || wire_config(raw_configs(configs)).attrs.len()
            > v2::ATTRS_MAX {
            Some(Error::InvalidArgument)
        } else {
            None
        }
    }

    /// The answer to a query has the size that the generation gives it,
    /// and speaks of the lines that were asked for.
    pub open spec fn reply_fits(&self, offsets: Seq<u32>, reply: Seq<u8>) -> bool {
        match self.abi() {
            AbiVersion::V1 => reply.len() == v1::HANDLE_DATA_SIZE,
            AbiVersion::V2 => reply.len() == v2::LINE_VALUES_SIZE && u64_at(reply, 8, self.endian())
                == query_values(self.lines(), offsets, offsets.len() as int).mask,
        }
    }

    /// The value of the line named by an offset, as the kernel's answer
    /// gives it: the level at the line's place, seen through its polarity.
    pub open spec fn value_in(&self, reply: Seq<u8>, offset: u32) -> Value {
        let p = position(self.lines(), offset).unwrap();
        Value::logical(raw_level(self.abi(), self.endian(), reply, p), self.lines()[p].config.active_low)
    }

    fn places(&self, offsets: &Vec<u32>) -> (r: Option<Vec<usize>>)
        ensures
            match r {
                Some(places) => {
                    &&& places@.len() == offsets@.len()
                    &&& forall|k: int|
                        0 <= k < offsets@.len() ==> position(self.lines(), offsets@[k]) == Some(
                            (#[trigger] places@[k]) as int,
                        ) && places@[k] < self.lines().len()
                    &&& forall|k: int|
                        0 <= k < offsets@.len() ==> position(self.lines(), #[trigger] offsets@[k]) is Some
                },
                None => exists|k: int|
                    0 <= k < offsets@.len() && position(self.lines(), #[trigger] offsets@[k]) is None,
            },
    {
        let mut out: Vec<usize> = Vec::new();
        let mut k: usize = 0;
        while k < offsets.len()
            invariant
                k <= offsets@.len(),
                out@.len() == k,
                forall|j: int|
                    0 <= j < k ==> position(self.lines(), offsets@[j]) == Some((#[trigger] out@[j]) as int)
                        && out@[j] < self.lines().len(),
            decreases offsets@.len() - k,
        {
            match find_line(&self.lines, offsets[k]) {
                Some(p) => {
                    out.push(p);
                },
                None => {
                    return None;
                },
            }
            k = k + 1;
        }
        proof {
            assert forall|k: int| 0 <= k < offsets@.len() implies position(
                self.lines(),
                #[trigger] offsets@[k],
            ) is Some by {
                assert(position(self.lines(), offsets@[k]) == Some(out@[k] as int));
            }
        }
        Some(out)
    }

    /// The bytes that ask the kernel for the values of lines.
    pub fn get_values(&self, offsets: &Vec<u32>) -> (r: Result<Vec<u8>, Error>)
        ensures
            match r {
                Ok(bytes) => self.read_error(offsets@) is None && bytes@ == (match self.abi() {
                    AbiVersion::V1 => zeros(v1::HANDLE_DATA_SIZE as int),
                    AbiVersion::V2 => values_bytes(
                        query_values(self.lines(), offsets@, offsets@.len() as int),
                        self.endian(),
                    ),
                }),
                Err(err) => self.read_error(offsets@) == Some(err),
            },
    {
        proof {
            use_type_invariant(self);
        }
        match self.state {
            State::Released => {
                return Err(Error::Closed);
            },
            State::Building => {
                return Err(Error::InvalidArgument);
            },
            State::Active => {},
        }
        let places = match self.places(offsets) {
            Some(places) => places,
            None => {
                return Err(Error::InvalidArgument);
            },
        };
        match self.abi {
            AbiVersion::V1 => {
                let mut out: Vec<u8> = Vec::new();
                put_zeros(&mut out, v1::HANDLE_DATA_SIZE);
                assert(out@ =~= zeros(v1::HANDLE_DATA_SIZE as int));
                Ok(out)
            },
            AbiVersion::V2 => {
                let query = self.query(offsets, &places);
                Ok(query.encode(self.endian))
            },
        }
    }

    fn query(&self, offsets: &Vec<u32>, places: &Vec<usize>) -> (r: LineValues)
        requires
            self.lines().len() <= 64,
            places@.len() == offsets@.len(),
            forall|k: int|
                0 <= k < offsets@.len() ==> position(self.lines(), offsets@[k]) == Some(
                    (#[trigger] places@[k]) as int,
                ) && places@[k] < self.lines().len(),
        ensures
            r == query_values(self.lines(), offsets@, offsets@.len() as int),
    {
        let mut query = LineValues { bits: 0, mask: 0 };
        let mut k: usize = 0;
        while k < places.len()
            invariant
                k <= places@.len(),
                self.lines().len() <= 64,
                places@.len() == offsets@.len(),
                forall|k: int|
                    0 <= k < offsets@.len() ==> position(self.lines(), offsets@[k]) == Some(
                        (#[trigger] places@[k]) as int,
                    ) && places@[k] < self.lines().len(),
                query == query_values(self.lines(), offsets@, k as int),
            decreases places@.len() - k,
        {
            query.select(places[k]);
            k = k + 1;
        }
        query
    }

    /// Reads the values of lines out of the kernel's answer: one value for
    /// each offset, in the order of the offsets.
    pub fn read_values(&self, offsets: &Vec<u32>, reply: &[u8]) -> (r: Result<Vec<Value>, Error>)
        ensures
            match r {
                Ok(values) => {
                    &&& self.read_error(offsets@) is None
                    &&& self.reply_fits(offsets@, reply@)
                    &&& values@.len() == offsets@.len()
                    &&& forall|k: int|
                        0 <= k < offsets@.len() ==> #[trigger] values@[k] == self.value_in(reply@, offsets@[k])
                },
                Err(err) => match self.read_error(offsets@) {
                    Some(refused) => err == refused,
                    None => err == Error::ProtocolError && !self.reply_fits(offsets@, reply@),
                },
            },
    {
        proof {
            use_type_invariant(self);
        }
        match self.state {
            State::Released => {
                return Err(Error::Closed);
            },
            State::Building => {
                return Err(Error::InvalidArgument);
            },
            State::Active => {},
        }
        let places = match self.places(offsets) {
            Some(places) => places,
            None => {
                return Err(Error::InvalidArgument);
            },
        };
        let bits: u64 = match self.abi {
            AbiVersion::V1 => {
                if reply.len() != v1::HANDLE_DATA_SIZE {
                    return Err(Error::ProtocolError);
                }
                0
            },
            AbiVersion::V2 => {
                let query = self.query(offsets, &places);
                match LineValues::decode(reply, self.endian) {
                    Ok(answer) => {
                        if answer.mask != query.mask {
                            return Err(Error::ProtocolError);
                        }
                        answer.bits
                    },
                    Err(_) => {
                        return Err(Error::ProtocolError);
                    },
                }
            },
        };
        let mut out: Vec<Value> = Vec::new();
        let mut k: usize = 0;
        while k < offsets.len()
            invariant
                k <= offsets@.len(),
                self.lines().len() <= 64,
                places@.len() == offsets@.len(),
                forall|k: int|
                    0 <= k < offsets@.len() ==> position(self.lines(), offsets@[k]) == Some(
                        (#[trigger] places@[k]) as int,
                    ) && places@[k] < self.lines().len(),
                self.abi() == AbiVersion::V1 ==> reply@.len() == v1::HANDLE_DATA_SIZE,
                self.abi() == AbiVersion::V2 ==> bits == u64_at(reply@, 0, self.endian()),
                out@.len() == k,
                forall|j: int| 0 <= j < k ==> #[trigger] out@[j] == self.value_in(reply@, offsets@[j]),
            decreases offsets@.len() - k,
        {
            let p = places[k];
            let level = match self.abi {
                AbiVersion::V1 => reply[p] != 0,
                AbiVersion::V2 => v2::test_bit(bits, p),
            };
            out.push(Value::from_physical(level, self.lines[p].config.active_low));
            k = k + 1;
        }
        Ok(out)
    }

    /// Gives output lines new values, and makes the bytes that tell the
    /// kernel.
    ///
    /// The lines that no update names keep their values. Nothing changes
    /// where any update is refused.
    pub fn set_values(&mut self, updates: &Vec<(u32, Value)>) -> (r: Result<Vec<u8>, Error>)
        ensures
            final(self).state() == old(self).state(),
            final(self).abi() == old(self).abi(),
            final(self).endian() == old(self).endian(),
            final(self).fd() == old(self).fd(),
            match r {
                Ok(bytes) => {
                    &&& old(self).write_error(updates@) is None
                    &&& final(self).lines() == written(old(self).lines(), updates@, updates@.len() as int)
                    &&& bytes@ == (match old(self).abi() {
                        AbiVersion::V1 => v1::data_bytes(levels_of(final(self).lines())),
                        AbiVersion::V2 => values_bytes(
                            write_values(old(self).lines(), updates@, updates@.len() as int),
                            old(self).endian(),
                        ),
                    })
                },
                Err(err) => old(self).write_error(updates@) == Some(err) && final(self).lines() == old(
                    self,
                ).lines(),
            },
    {
        proof {
            use_type_invariant(&*self);
        }
        match self.state {
            State::Released => {
                return Err(Error::Closed);
            },
            State::Building => {
                return Err(Error::InvalidArgument);
            },
            State::Active => {},
        }
        let n = self.lines.len();
        let mut places: Vec<usize> = Vec::new();
        let mut k: usize = 0;
        while k < updates.len()
            invariant
                k <= updates@.len(),
                n == self.lines().len(),
                self.state() == State::Active,
                places@.len() == k,
                forall|j: int| 0 <= j < k ==> self.writable(#[trigger] updates@[j]),
                forall|j: int|
                    0 <= j < k ==> position(self.lines(), updates@[j].0) == Some((#[trigger] places@[j]) as int)
                        && places@[j] < n,
            decreases updates@.len() - k,
        {
            match find_line(&self.lines, updates[k].0) {
                Some(p) => {
                    if !self.lines[p].config.is_output() {
                        assert(!self.writable(updates@[k as int]));
                        return Err(Error::InvalidArgument);
                    }
                    places.push(p);
                },
                None => {
                    assert(!self.writable(updates@[k as int]));
                    return Err(Error::InvalidArgument);
                },
            }
            k = k + 1;
        }
        let ghost before = self.lines@;
        let mut lines = copy_lines(&self.lines);
        let mut values = LineValues { bits: 0, mask: 0 };
        let mut k: usize = 0;
        while k < updates.len()
            invariant
                k <= updates@.len(),
                n == before.len(),
                n <= 64,
                places@.len() == updates@.len(),
                forall|j: int|
                    0 <= j < updates@.len() ==> position(before, updates@[j].0) == Some(
                        (#[trigger] places@[j]) as int,
                    ) && places@[j] < n,
                lines@ == written(before, updates@, k as int),
                lines@.len() == n,
                forall|p: int| 0 <= p < n ==> (#[trigger] lines@[p]).config.active_low == before[p].config.active_low,
                values == write_values(before, updates@, k as int),
            decreases updates@.len() - k,
        {
            let p = places[k];
            let v = updates[k].1;
            let line = lines[p];
            values.set(p, v.to_physical(line.config.active_low));
            lines.set(p, LineSpec { offset: line.offset, config: LineConfig { value: v, ..line.config } });
            k = k + 1;
        }
        self.lines = lines;
        match self.abi {
            AbiVersion::V1 => {
                let mut levels: Vec<bool> = Vec::new();
                let mut p: usize = 0;
                while p < n
                    invariant
                        p <= n,
                        n == self.lines().len(),
                        n <= 64,
                        levels@.len() == p,
                        forall|q: int| 0 <= q < p ==> #[trigger] levels@[q] == levels_of(self.lines())[q],
                    decreases n - p,
                {
                    let c = self.lines[p].config;
                    levels.push(c.value.to_physical(c.active_low));
                    p = p + 1;
                }
                assert(levels@ =~= levels_of(self.lines()));
                match v1::encode_data(&levels) {
                    Ok(bytes) => Ok(bytes),
                    Err(_) => unreached(),
                }
            },
            AbiVersion::V2 => Ok(values.encode(self.endian)),
        }
    }

    /// Gives the lines new configurations without giving them up, and
    /// makes the bytes that tell the kernel. There is one configuration
    /// for each line, in the order of the lines.
    pub fn reconfigure(&mut self, configs: &Vec<LineConfig>) -> (r: Result<Vec<u8>, Error>)
        ensures
            final(self).state() == old(self).state(),
            final(self).abi() == old(self).abi(),
            final(self).endian() == old(self).endian(),
            final(self).fd() == old(self).fd(),
            match r {
                Ok(bytes) => {
                    &&& old(self).reconfigure_error(configs@) is None
                    &&& final(self).lines() == reconfigured(old(self).lines(), configs@)
                    &&& bytes@ == config_bytes(wire_config(raw_configs(configs@)), old(self).endian())
                },
                Err(err) => old(self).reconfigure_error(configs@) == Some(err) && final(self).lines()
                    == old(self).lines(),
            },
    {
        proof {
            use_type_invariant(&*self);
        }
        match self.state {
            State::Released => {
                return Err(Error::Closed);
            },
            State::Building => {
                return Err(Error::InvalidArgument);
            },
            State::Active => {},
        }
        match self.abi {
            AbiVersion::V1 => {
                return Err(Error::Unsupported);
            },
            AbiVersion::V2 => {},
        }
        let n = self.lines.len();
        if configs.len() != n {
            return Err(Error::InvalidArgument);
        }
        let mut raw: Vec<LineConfig> = Vec::new();
        let mut lines: Vec<LineSpec> = Vec::new();
        let mut p: usize = 0;
        while p < n
            invariant
                p <= n,
                n == self.lines().len(),
                n == configs@.len(),
                raw@.len() == p,
                lines@.len() == p,
                forall|q: int| 0 <= q < p ==> #[trigger] raw@[q] == raw_configs(configs@)[q],
                forall|q: int| 0 <= q < p ==> #[trigger] lines@[q] == reconfigured(self.lines(), configs@)[q],
            decreases n - p,
        {
            raw.push(configs[p].raw());
            lines.push(LineSpec { offset: self.lines[p].offset, config: configs[p] });
            p = p + 1;
        }
        assert(raw@ =~= raw_configs(configs@));
        assert(lines@ =~= reconfigured(self.lines(), configs@));
        let wire = match WireConfig::from_configs(&raw) {
            Ok(wire) => wire,
            Err(err) => {
                return Err(err);
            },
        };
        proof {
            lemma_wire_config_encodable(raw@);
        }
        match wire.encode(self.endian) {
            Ok(bytes) => {
                self.lines = lines;
                Ok(bytes)
            },
            Err(_) => unreached(),
        }
    }
}


/// The descriptors that the first `n` requests hold, the last first.
pub open spec fn held_by(requests: Seq<Request>, n: int) -> Seq<i32>
    decreases n,
{
    if n <= 0 {
        Seq::empty()
    } else if requests[n - 1].state() == State::Active {
        seq![requests[n - 1].fd()] + held_by(requests, n - 1)
    } else {
        held_by(requests, n - 1)
    }
}

/// Gives up the requests made on several chips, as after a failure on one
/// of them, and hands out the descriptors to close: those of the requests
/// that held lines, the last made first.
pub fn release_all(requests: Vec<Request>) -> (r: Vec<i32>)
    ensures
        r@ == held_by(requests@, requests@.len() as int),
{
    let ghost all = requests@;
    let mut left = requests;
    let mut out: Vec<i32> = Vec::new();
    while left.len() > 0
        invariant
            left@.len() <= all.len(),
            left@ == all.subrange(0, left@.len() as int),
            out@ + held_by(all, left@.len() as int) == held_by(all, all.len() as int),
        decreases left@.len(),
    {
        let ghost n = left@.len() as int;
        let ghost before = out@;
        match left.pop() {
            Some(last) => {
                let mut request = last;
                assert(request == all[n - 1]);
                match request.release() {
                    Some(fd) => {
                        out.push(fd);
                        assert(out@ + held_by(all, n - 1) =~= before + (seq![fd] + held_by(all, n - 1)));
                    },
                    None => {},
                }
            },
            None => {},
        }
    }
    assert(out@ =~= out@ + held_by(all, 0));
    out
}

} // verus!
