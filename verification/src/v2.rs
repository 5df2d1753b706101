//! The wire layouts of the second generation of the interface.
//!
//! A request holds its offsets, a consumer label and a configuration: flags
//! for every line, and up to ten attributes, each with a bitmask that says
//! which of the requested lines it holds for. Bit `i` of a mask stands for
//! the line at place `i` of the request.

use vstd::prelude::*;
use crate::error::Error;
use crate::wire::{
    get_name, get_u32, get_u64, lemma_u32s_len, name_field, put_name, put_u32, put_u32s, put_u64,
    put_zeros, text_of, u32_at, u32_bytes, u32s_bytes, u64_at, u64_bytes, zeros, Endian,
};

verus! {

/// The most lines of one request.
pub const LINES_MAX: usize = 64;

/// The most attributes of one configuration.
pub const ATTRS_MAX: usize = 10;

// The sizes of the layouts, in bytes.
pub const LINE_REQUEST_SIZE: usize = 592;

pub const LINE_CONFIG_SIZE: usize = 272;

pub const LINE_VALUES_SIZE: usize = 16;

pub const LINE_INFO_SIZE: usize = 256;

pub const LINE_EVENT_SIZE: usize = 48;

// The flags of a line.
pub const FLAG_USED: u64 = 1;

pub const FLAG_ACTIVE_LOW: u64 = 2;

pub const FLAG_INPUT: u64 = 4;

pub const FLAG_OUTPUT: u64 = 8;

pub const FLAG_EDGE_RISING: u64 = 16;

pub const FLAG_EDGE_FALLING: u64 = 32;

pub const FLAG_OPEN_DRAIN: u64 = 64;

pub const FLAG_OPEN_SOURCE: u64 = 128;

pub const FLAG_BIAS_PULL_UP: u64 = 256;

pub const FLAG_BIAS_PULL_DOWN: u64 = 512;

pub const FLAG_BIAS_DISABLED: u64 = 1024;

// The numbers that tell the kinds of attribute apart.
pub const ATTR_ID_FLAGS: u32 = 1;

pub const ATTR_ID_VALUES: u32 = 2;

pub const ATTR_ID_DEBOUNCE: u32 = 3;

/// The value of an attribute: flags, output values by bit, or a debounce
/// period in microseconds.
#[derive(Clone, Copy, Debug, PartialEq, Eq)]
pub enum Attribute {
    Flags(u64),
    Values(u64),
    Debounce(u32),
}

/// An attribute and the lines it holds for.
#[derive(Clone, Copy, Debug, PartialEq, Eq)]
pub struct ConfigAttribute {
    pub attr: Attribute,
    pub mask: u64,
}

/// The configuration part of a request.
#[derive(Clone, Debug, PartialEq, Eq)]
pub struct WireConfig {
    pub flags: u64,
    pub attrs: Vec<ConfigAttribute>,
}

pub struct WireConfigView {
    pub flags: u64,
    pub attrs: Seq<ConfigAttribute>,
}

impl View for WireConfig {
    type V = WireConfigView;

    open spec fn view(&self) -> WireConfigView {
        WireConfigView { flags: self.flags, attrs: self.attrs@ }
    }
}

/// A request for lines.
#[derive(Clone, Debug, PartialEq, Eq)]
pub struct LineRequest {
    pub offsets: Vec<u32>,
    pub consumer: Vec<u8>,
    pub config: WireConfig,
    pub event_buffer_size: u32,
}

pub struct LineRequestView {
    pub offsets: Seq<u32>,
    pub consumer: Seq<u8>,
    pub config: WireConfigView,
    pub event_buffer_size: u32,
}

impl View for LineRequest {
    type V = LineRequestView;

    open spec fn view(&self) -> LineRequestView {
        LineRequestView {
            offsets: self.offsets@,
            consumer: self.consumer@,
            config: self.config@,
            event_buffer_size: self.event_buffer_size,
        }
    }
}

/// Whether bit `i` of a mask is set.
pub open spec fn bit(mask: u64, i: int) -> bool {
    0 <= i < 64 && (mask >> (i as u64)) & 1 == 1
}

/// Whether bit `i` of a mask is set.
pub fn test_bit(mask: u64, i: usize) -> (r: bool)
    ensures
        r == bit(mask, i as int),
{
    if i < 64 {
        (mask >> (i as u64)) & 1 == 1
    } else {
        false
    }
}

/// Two attributes are of one kind.
pub open spec fn same_kind(a: Attribute, b: Attribute) -> bool {
    match (a, b) {
        (Attribute::Flags(_), Attribute::Flags(_)) => true,
        (Attribute::Values(_), Attribute::Values(_)) => true,
        (Attribute::Debounce(_), Attribute::Debounce(_)) => true,
        _ => false,
    }
}

/// Two attributes of one kind hold for the same line.
pub open spec fn overlap(a: ConfigAttribute, b: ConfigAttribute) -> bool {
    same_kind(a.attr, b.attr) && exists|i: int| bit(a.mask, i) && bit(b.mask, i)
}

impl WireConfigView {
    /// A configuration can be written when it has ten attributes at most and
    /// no two of one kind that hold for the same line.
    pub open spec fn encodable(self) -> bool {
        &&& self.attrs.len() <= ATTRS_MAX
        &&& forall|j: int, k: int|
            0 <= j < k < self.attrs.len() ==> !overlap(#[trigger] self.attrs[j], #[trigger] self.attrs[k])
    }
}

impl LineRequestView {
    pub open spec fn encodable(self) -> bool {
        self.offsets.len() <= LINES_MAX && self.config.encodable()
    }
}

/// The 24 bytes of an attribute: its kind, four bytes of padding, its value
/// in eight bytes, and its mask.
pub open spec fn attribute_bytes(a: ConfigAttribute, e: Endian) -> Seq<u8> {
    match a.attr {
        Attribute::Flags(f) => u32_bytes(ATTR_ID_FLAGS, e) + zeros(4) + u64_bytes(f, e) + u64_bytes(
            a.mask,
            e,
        ),
        Attribute::Values(v) => u32_bytes(ATTR_ID_VALUES, e) + zeros(4) + u64_bytes(v, e) + u64_bytes(
            a.mask,
            e,
        ),
        Attribute::Debounce(p) => u32_bytes(ATTR_ID_DEBOUNCE, e) + zeros(4) + u32_bytes(p, e) + zeros(4)
            + u64_bytes(a.mask, e),
    }
}

/// The bytes of a run of attributes.
pub open spec fn attributes_bytes(attrs: Seq<ConfigAttribute>, e: Endian) -> Seq<u8>
    decreases attrs.len(),
{
    if attrs.len() == 0 {
        Seq::empty()
    } else {
        attributes_bytes(attrs.drop_last(), e) + attribute_bytes(attrs.last(), e)
    }
}

/// The 272 bytes of a configuration: the flags, the number of attributes,
/// padding, and ten places for attributes, those not used left zero.
pub open spec fn config_bytes(c: WireConfigView, e: Endian) -> Seq<u8> {
    u64_bytes(c.flags, e) + u32_bytes(c.attrs.len() as u32, e) + zeros(20) + attributes_bytes(c.attrs, e)
        + zeros(24 * (ATTRS_MAX - c.attrs.len()))
}

/// The 592 bytes of a request: 64 places for offsets, the consumer label,
/// the configuration, the number of lines, the size of the event buffer,
/// padding, and the place where the kernel puts the descriptor.
pub open spec fn request_bytes(r: LineRequestView, e: Endian) -> Seq<u8> {
    u32s_bytes(r.offsets, e) + zeros(4 * (LINES_MAX - r.offsets.len())) + name_field(r.consumer)
        + config_bytes(r.config, e) + u32_bytes(r.offsets.len() as u32, e) + u32_bytes(
        r.event_buffer_size,
        e,
    ) + zeros(20) + zeros(4)
}

/// An attribute takes 24 bytes.
pub proof fn lemma_attribute_len(a: ConfigAttribute, e: Endian)
    ensures
        attribute_bytes(a, e).len() == 24,
{
}

/// A run of attributes takes 24 bytes for each.
pub proof fn lemma_attributes_len(attrs: Seq<ConfigAttribute>, e: Endian)
    ensures
        attributes_bytes(attrs, e).len() == 24 * attrs.len(),
    decreases attrs.len(),
{
    if attrs.len() > 0 {
        lemma_attributes_len(attrs.drop_last(), e);
    }
}

/// A configuration takes 272 bytes.
pub proof fn lemma_config_len(c: WireConfigView, e: Endian)
    requires
        c.attrs.len() <= ATTRS_MAX,
    ensures
        config_bytes(c, e).len() == LINE_CONFIG_SIZE,
{
    lemma_attributes_len(c.attrs, e);
}

/// A request takes 592 bytes.
pub proof fn lemma_request_len(r: LineRequestView, e: Endian)
    requires
        r.offsets.len() <= LINES_MAX,
        r.config.attrs.len() <= ATTRS_MAX,
    ensures
        request_bytes(r, e).len() == LINE_REQUEST_SIZE,
{
    lemma_u32s_len(r.offsets, e);
    lemma_config_len(r.config, e);
}

fn put_attribute(out: &mut Vec<u8>, a: &ConfigAttribute, e: Endian)
    ensures
        final(out)@ == old(out)@ + attribute_bytes(*a, e),
{
    match a.attr {
        Attribute::Flags(f) => {
            put_u32(out, ATTR_ID_FLAGS, e);
            put_zeros(out, 4);
            put_u64(out, f, e);
        },
        Attribute::Values(v) => {
            put_u32(out, ATTR_ID_VALUES, e);
            put_zeros(out, 4);
            put_u64(out, v, e);
        },
        Attribute::Debounce(p) => {
            put_u32(out, ATTR_ID_DEBOUNCE, e);
            put_zeros(out, 4);
            put_u32(out, p, e);
            put_zeros(out, 4);
        },
    }
    put_u64(out, a.mask, e);
    assert(out@ =~= old(out)@ + attribute_bytes(*a, e));
}

fn put_attributes(out: &mut Vec<u8>, attrs: &Vec<ConfigAttribute>, e: Endian)
    ensures
        final(out)@ == old(out)@ + attributes_bytes(attrs@, e),
{
    let mut i: usize = 0;
    assert(attrs@.subrange(0, 0) =~= Seq::<ConfigAttribute>::empty());
    assert(out@ =~= old(out)@ + attributes_bytes(attrs@.subrange(0, 0), e));
    while i < attrs.len()
        invariant
            i <= attrs@.len(),
            out@ == old(out)@ + attributes_bytes(attrs@.subrange(0, i as int), e),
        decreases attrs@.len() - i,
    {
        put_attribute(out, &attrs[i], e);
        proof {
            let next = attrs@.subrange(0, i + 1);
            assert(next.drop_last() =~= attrs@.subrange(0, i as int));
            assert(out@ =~= old(out)@ + attributes_bytes(next, e));
        }
        i = i + 1;
    }
    assert(attrs@.subrange(0, i as int) =~= attrs@);
}

/// Whether two masks have a line in common.
pub fn masks_meet(a: u64, b: u64) -> (r: bool)
    ensures
        r == exists|i: int| bit(a, i) && bit(b, i),
{
    let mut i: usize = 0;
    while i < 64
        invariant
            i <= 64,
            forall|j: int| 0 <= j < i ==> !(bit(a, j) && bit(b, j)),
        decreases 64 - i,
    {
        if test_bit(a, i) && test_bit(b, i) {
            return true;
        }
        i = i + 1;
    }
    false
}

fn kinds_match(a: &Attribute, b: &Attribute) -> (r: bool)
    ensures
        r == same_kind(*a, *b),
{
    match (a, b) {
        (Attribute::Flags(_), Attribute::Flags(_)) => true,
        (Attribute::Values(_), Attribute::Values(_)) => true,
        (Attribute::Debounce(_), Attribute::Debounce(_)) => true,
        _ => false,
    }
}

impl WireConfig {
    /// Whether the configuration can be written.
    pub fn is_encodable(&self) -> (r: bool)
        ensures
            r == self@.encodable(),
    {
        let n = self.attrs.len();
        if n > ATTRS_MAX {
            return false;
        }
        let mut k: usize = 0;
        while k < n
            invariant
                n == self.attrs@.len(),
                k <= n,
                forall|a: int, b: int|
                    0 <= a < b < k ==> !overlap(#[trigger] self.attrs@[a], #[trigger] self.attrs@[b]),
            decreases n - k,
        {
            let mut j: usize = 0;
            while j < k
                invariant
                    n == self.attrs@.len(),
                    k < n,
                    j <= k,
                    forall|a: int| 0 <= a < j ==> !overlap(#[trigger] self.attrs@[a], self.attrs@[k as int]),
                decreases k - j,
            {
                if kinds_match(&self.attrs[j].attr, &self.attrs[k].attr) && masks_meet(
                    self.attrs[j].mask,
                    self.attrs[k].mask,
                ) {
                    assert(overlap(self.attrs@[j as int], self.attrs@[k as int]));
                    return false;
                }
                j = j + 1;
            }
            k = k + 1;
        }
        true
    }

    /// Writes the configuration, as the kernel takes it to change the
    /// configuration of lines already requested.
    pub fn encode(&self, e: Endian) -> (r: Result<Vec<u8>, Error>)
        ensures
            match r {
                Ok(bytes) => self@.encodable() && bytes@ == config_bytes(self@, e),
                Err(err) => err == Error::InvalidArgument && !self@.encodable(),
            },
    {
        if !self.is_encodable() {
            return Err(Error::InvalidArgument);
        }
        let mut out: Vec<u8> = Vec::new();
        self.put(&mut out, e);
        assert(out@ =~= config_bytes(self@, e));
        Ok(out)
    }

    fn put(&self, out: &mut Vec<u8>, e: Endian)
        requires
            self.attrs@.len() <= ATTRS_MAX,
        ensures
            final(out)@ == old(out)@ + config_bytes(self@, e),
    {
        put_u64(out, self.flags, e);
        put_u32(out, self.attrs.len() as u32, e);
        put_zeros(out, 20);
        put_attributes(out, &self.attrs, e);
        put_zeros(out, 24 * (ATTRS_MAX - self.attrs.len()));
        assert(out@ =~= old(out)@ + config_bytes(self@, e));
    }
}

impl LineRequest {
    /// Writes the request.
    pub fn encode(&self, e: Endian) -> (r: Result<Vec<u8>, Error>)
        ensures
            match r {
                Ok(bytes) => self@.encodable() && bytes@ == request_bytes(self@, e),
                Err(err) => err == Error::InvalidArgument && !self@.encodable(),
            },
    {
        if self.offsets.len() > LINES_MAX || !self.config.is_encodable() {
            return Err(Error::InvalidArgument);
        }
        let mut out: Vec<u8> = Vec::new();
        put_u32s(&mut out, &self.offsets, e);
        put_zeros(&mut out, 4 * (LINES_MAX - self.offsets.len()));
        put_name(&mut out, self.consumer.as_slice());
        self.config.put(&mut out, e);
        put_u32(&mut out, self.offsets.len() as u32, e);
        put_u32(&mut out, self.event_buffer_size, e);
        put_zeros(&mut out, 20);
        put_zeros(&mut out, 4);
        assert(out@ =~= request_bytes(self@, e));
        Ok(out)
    }
}


/// The attribute written at a place, where its kind is known.
pub open spec fn attribute_at(buf: Seq<u8>, at: int, e: Endian) -> Option<ConfigAttribute> {
    let id = u32_at(buf, at, e);
    let mask = u64_at(buf, at + 16, e);
    if id == ATTR_ID_FLAGS {
        Some(ConfigAttribute { attr: Attribute::Flags(u64_at(buf, at + 8, e)), mask })
    } else if id == ATTR_ID_VALUES {
        Some(ConfigAttribute { attr: Attribute::Values(u64_at(buf, at + 8, e)), mask })
    } else if id == ATTR_ID_DEBOUNCE {
        Some(ConfigAttribute { attr: Attribute::Debounce(u32_at(buf, at + 8, e)), mask })
    } else {
        None
    }
}

/// The attribute in place `k` of the configuration written at `at`.
pub open spec fn slot(buf: Seq<u8>, at: int, k: int, e: Endian) -> Option<ConfigAttribute> {
    attribute_at(buf, at + 32 + 24 * k, e)
}

/// The configuration written at a place. There is none where it claims more
/// than ten attributes, or one of a kind that is not known.
pub open spec fn config_at(buf: Seq<u8>, at: int, e: Endian) -> Option<WireConfigView> {
    let n = u32_at(buf, at + 8, e);
    if n > ATTRS_MAX || exists|k: int| 0 <= k < n && slot(buf, at, k, e) is None {
        None
    } else {
        Some(
            WireConfigView {
                flags: u64_at(buf, at, e),
                attrs: Seq::new(n as nat, |k: int| slot(buf, at, k, e).unwrap()),
            },
        )
    }
}

/// The request that a buffer holds. There is none where the buffer has not
/// the size of a request, or claims more than 64 lines, or holds no
/// configuration.
pub open spec fn request_of(buf: Seq<u8>, e: Endian) -> Option<LineRequestView> {
    let n = u32_at(buf, 560, e);
    if buf.len() != LINE_REQUEST_SIZE || n > LINES_MAX {
        None
    } else {
        match config_at(buf, 288, e) {
            None => None,
            Some(config) => Some(
                LineRequestView {
                    offsets: Seq::new(n as nat, |i: int| u32_at(buf, 4 * i, e)),
                    consumer: text_of(buf.subrange(256, 288)),
                    config,
                    event_buffer_size: u32_at(buf, 564, e),
                },
            ),
        }
    }
}

fn get_attribute(buf: &[u8], at: usize, e: Endian) -> (r: Option<ConfigAttribute>)
    requires
        at + 24 <= buf@.len(),
    ensures
        r == attribute_at(buf@, at as int, e),
{
    let size = buf.len();
    assert(at + 24 <= size);
    let id = get_u32(buf, at, e);
    let mask = get_u64(buf, at + 16, e);
    if id == ATTR_ID_FLAGS {
        Some(ConfigAttribute { attr: Attribute::Flags(get_u64(buf, at + 8, e)), mask })
    } else if id == ATTR_ID_VALUES {
        Some(ConfigAttribute { attr: Attribute::Values(get_u64(buf, at + 8, e)), mask })
    } else if id == ATTR_ID_DEBOUNCE {
        Some(ConfigAttribute { attr: Attribute::Debounce(get_u32(buf, at + 8, e)), mask })
    } else {
        None
    }
}

impl WireConfig {
    fn get(buf: &[u8], at: usize, e: Endian) -> (r: Option<WireConfig>)
        requires
            at + LINE_CONFIG_SIZE <= buf@.len(),
        ensures
            match r {
                Some(c) => config_at(buf@, at as int, e) == Some(c@),
                None => config_at(buf@, at as int, e) is None,
            },
    {
        let size = buf.len();
        assert(at + LINE_CONFIG_SIZE <= size);
        let flags = get_u64(buf, at, e);
        let n = get_u32(buf, at + 8, e);
        if n > ATTRS_MAX as u32 {
            return None;
        }
        let n = n as usize;
        let mut attrs: Vec<ConfigAttribute> = Vec::new();
        let mut k: usize = 0;
        while k < n
            invariant
                k <= n <= ATTRS_MAX,
                n == u32_at(buf@, at + 8, e),
                at + LINE_CONFIG_SIZE <= buf@.len(),
                buf@.len() == size,
                attrs@.len() == k,
                forall|j: int| 0 <= j < k ==> slot(buf@, at as int, j, e) == Some(#[trigger] attrs@[j]),
            decreases n - k,
        {
            match get_attribute(buf, at + 32 + 24 * k, e) {
                Some(a) => {
                    attrs.push(a);
                },
                None => {
                    assert(slot(buf@, at as int, k as int, e) is None);
                    return None;
                },
            }
            k = k + 1;
        }
        proof {
            assert forall|j: int| 0 <= j < n implies !(slot(buf@, at as int, j, e) is None) by {
                assert(slot(buf@, at as int, j, e) == Some(attrs@[j]));
            }
            assert(attrs@ =~= Seq::new(n as nat, |k: int| slot(buf@, at as int, k, e).unwrap()));
        }
        Some(WireConfig { flags, attrs })
    }

    /// Reads a configuration.
    pub fn decode(buf: &[u8], e: Endian) -> (r: Result<WireConfig, Error>)
        ensures
            match r {
                Ok(c) => buf@.len() == LINE_CONFIG_SIZE && config_at(buf@, 0, e) == Some(c@),
                Err(err) => err == Error::ProtocolError && (buf@.len() != LINE_CONFIG_SIZE || config_at(
                    buf@,
                    0,
                    e,
                ) is None),
            },
    {
        if buf.len() != LINE_CONFIG_SIZE {
            return Err(Error::ProtocolError);
        }
        match WireConfig::get(buf, 0, e) {
            Some(c) => Ok(c),
            None => Err(Error::ProtocolError),
        }
    }
}

impl LineRequest {
    /// Reads a request.
    pub fn decode(buf: &[u8], e: Endian) -> (r: Result<LineRequest, Error>)
        ensures
            match r {
                Ok(req) => request_of(buf@, e) == Some(req@),
                Err(err) => err == Error::ProtocolError && request_of(buf@, e) is None,
            },
    {
        if buf.len() != LINE_REQUEST_SIZE {
            return Err(Error::ProtocolError);
        }
        let n = get_u32(buf, 560, e);
        if n > LINES_MAX as u32 {
            return Err(Error::ProtocolError);
        }
        let n = n as usize;
        let config = match WireConfig::get(buf, 288, e) {
            Some(c) => c,
            None => {
                return Err(Error::ProtocolError);
            },
        };
        let mut offsets: Vec<u32> = Vec::new();
        let mut i: usize = 0;
        while i < n
            invariant
                i <= n <= LINES_MAX,
                buf@.len() == LINE_REQUEST_SIZE,
                offsets@.len() == i,
                forall|j: int| 0 <= j < i ==> #[trigger] offsets@[j] == u32_at(buf@, 4 * j, e),
            decreases n - i,
        {
            offsets.push(get_u32(buf, 4 * i, e));
            i = i + 1;
        }
        let consumer = get_name(buf, 256);
        let event_buffer_size = get_u32(buf, 564, e);
        proof {
            assert(offsets@ =~= Seq::new(n as nat, |i: int| u32_at(buf@, 4 * i, e)));
        }
        Ok(LineRequest { offsets, consumer, config, event_buffer_size })
    }
}

} // verus!
