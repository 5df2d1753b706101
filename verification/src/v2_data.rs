//! The smaller layouts of the second generation: line values, line
//! information and edge events, and a request made from lines.

use vstd::prelude::*;
use crate::error::Error;
use crate::line::{
    configs_of, offsets_of, Direction, EdgeEvent, EdgeKind, LineConfig, LineInfo, LineInfoView,
    LineSpec,
};
use crate::v2::{
    bit, test_bit, LineRequest, WireConfig, ATTRS_MAX, ATTR_ID_DEBOUNCE, FLAG_OUTPUT, FLAG_USED,
    LINES_MAX, LINE_EVENT_SIZE, LINE_INFO_SIZE, LINE_VALUES_SIZE,
};
use crate::v2_config::{bias_of, config_from, edge_of, polarity_of, wire_config};
use crate::v2_config_laws::lemma_wire_config_encodable;
use crate::wire::{
    get_bytes, get_name, get_u32, get_u64, lemma_u64_at, put_u64, text_of, u32_at, u64_at, u64_bytes,
    Endian,
};

verus! {

/// The values of lines: bit `i` of `bits` is the level of the line at
/// place `i` of the request, where bit `i` of `mask` is set.
#[derive(Clone, Copy, Debug, PartialEq, Eq, Structural)]
pub struct LineValues {
    pub bits: u64,
    pub mask: u64,
}

proof fn lemma_set_bit(m: u64, k: u64, i: u64)
    by (bit_vector)
    requires
        k < 64,
    ensures
        (((m | (1u64 << k)) >> i) & 1 == 1) == (i == k || (m >> i) & 1 == 1),
{
}

proof fn lemma_clear_bit(m: u64, k: u64, i: u64)
    by (bit_vector)
    requires
        k < 64,
    ensures
        (((m & !(1u64 << k)) >> i) & 1 == 1) == (i != k && (m >> i) & 1 == 1),
{
}

proof fn lemma_no_bit(i: u64)
    by (bit_vector)
    ensures
        (0u64 >> i) & 1 == 0,
{
}

/// Values that are given one more level speak of that line, and of the
/// other lines as before.
pub proof fn lemma_spec_set(v: LineValues, i: int, level: bool)
    requires
        0 <= i < 64,
    ensures
        v.spec_set(i, level).spec_get(i) == Some(level),
        forall|j: int| j != i ==> v.spec_set(i, level).spec_get(j) == v.spec_get(j),
{
    let w = v.spec_set(i, level);
    assert forall|j: int| #[trigger] bit(w.mask, j) == (j == i || bit(v.mask, j)) by {
        if 0 <= j < 64 {
            lemma_set_bit(v.mask, i as u64, j as u64);
        }
    }
    assert forall|j: int| #[trigger]
        bit(w.bits, j) == (if j == i {
            level
        } else {
            bit(v.bits, j)
        }) by {
        if 0 <= j < 64 {
            lemma_set_bit(v.bits, i as u64, j as u64);
            lemma_clear_bit(v.bits, i as u64, j as u64);
        }
    }
    assert(bit(w.mask, i));
    assert(bit(w.bits, i) == level);
}

/// Values that ask for one more line ask for it, and for the other lines
/// as before.
pub proof fn lemma_spec_select(v: LineValues, i: int)
    requires
        0 <= i < 64,
    ensures
        forall|j: int| #[trigger] bit(v.spec_select(i).mask, j) == (j == i || bit(v.mask, j)),
{
    assert forall|j: int| #[trigger] bit(v.spec_select(i).mask, j) == (j == i || bit(v.mask, j)) by {
        if 0 <= j < 64 {
            lemma_set_bit(v.mask, i as u64, j as u64);
        }
    }
}

/// Values made of zeros speak of no line.
pub proof fn lemma_no_values()
    ensures
        forall|j: int| !#[trigger] bit(0u64, j),
{
    assert forall|j: int| !#[trigger] bit(0u64, j) by {
        if 0 <= j < 64 {
            lemma_no_bit(j as u64);
        }
    }
}

/// The 16 bytes of line values: the levels, then the mask.
pub open spec fn values_bytes(v: LineValues, e: Endian) -> Seq<u8> {
    u64_bytes(v.bits, e) + u64_bytes(v.mask, e)
}

/// The values that a buffer holds; none where it has not their size.
pub open spec fn values_of(buf: Seq<u8>, e: Endian) -> Option<LineValues> {
    if buf.len() != LINE_VALUES_SIZE {
        None
    } else {
        Some(LineValues { bits: u64_at(buf, 0, e), mask: u64_at(buf, 8, e) })
    }
}

impl LineValues {
    /// The level of the line at place `i`, where the values speak of it.
    pub open spec fn spec_get(self, i: int) -> Option<bool> {
        if bit(self.mask, i) {
            Some(bit(self.bits, i))
        } else {
            None
        }
    }

    /// The values that also give the line at place `i` a level.
    pub open spec fn spec_set(self, i: int, level: bool) -> LineValues {
        LineValues {
            bits: if level {
                self.bits | (1u64 << (i as u64))
            } else {
                self.bits & !(1u64 << (i as u64))
            },
            mask: self.mask | (1u64 << (i as u64)),
        }
    }

    /// The values that also ask for the line at place `i`.
    pub open spec fn spec_select(self, i: int) -> LineValues {
        LineValues { bits: self.bits, mask: self.mask | (1u64 << (i as u64)) }
    }

    /// Values that speak of no line.
    pub fn new() -> (r: LineValues)
        ensures
            forall|i: int| r.spec_get(i) is None,
            r == (LineValues { bits: 0, mask: 0 }),
    {
        proof {
            assert forall|i: int| !bit(0u64, i) by {
                if 0 <= i < 64 {
                    lemma_no_bit(i as u64);
                }
            }
        }
        LineValues { bits: 0, mask: 0 }
    }

    /// The level of the line at place `i`, where the values speak of it.
    pub fn get(self, i: usize) -> (r: Option<bool>)
        ensures
            r == self.spec_get(i as int),
    {
        if test_bit(self.mask, i) {
            Some(test_bit(self.bits, i))
        } else {
            None
        }
    }

    /// Gives the line at place `i` a level, and leaves the other lines as
    /// they are.
    pub fn set(&mut self, i: usize, level: bool)
        requires
            i < LINES_MAX,
        ensures
            *final(self) == old(self).spec_set(i as int, level),
            final(self).spec_get(i as int) == Some(level),
            forall|j: int| j != i ==> final(self).spec_get(j) == old(self).spec_get(j),
    {
        let ghost before = *self;
        let one: u64 = 1u64 << (i as u64);
        self.mask = self.mask | one;
        if level {
            self.bits = self.bits | one;
        } else {
            self.bits = self.bits & !one;
        }
        proof {
            assert forall|j: int| #[trigger] bit(self.mask, j) == (j == i || bit(before.mask, j)) by {
                if 0 <= j < 64 {
                    lemma_set_bit(before.mask, i as u64, j as u64);
                }
            }
            assert forall|j: int| #[trigger]
                bit(self.bits, j) == (if j == i {
                    level
                } else {
                    bit(before.bits, j)
                }) by {
                if 0 <= j < 64 {
                    lemma_set_bit(before.bits, i as u64, j as u64);
                    lemma_clear_bit(before.bits, i as u64, j as u64);
                }
            }
            assert(bit(self.mask, i as int));
            assert(bit(self.bits, i as int) == level);
        }
    }

    /// Asks for the line at place `i` without giving it a level.
    pub fn select(&mut self, i: usize)
        requires
            i < LINES_MAX,
        ensures
            *final(self) == old(self).spec_select(i as int),
            bit(final(self).mask, i as int),
            forall|j: int| j != i ==> bit(final(self).mask, j) == bit(old(self).mask, j),
    {
        let ghost before = *self;
        self.mask = self.mask | (1u64 << (i as u64));
        proof {
            assert forall|j: int| #[trigger] bit(self.mask, j) == (j == i || bit(before.mask, j)) by {
                if 0 <= j < 64 {
                    lemma_set_bit(before.mask, i as u64, j as u64);
                }
            }
            assert(bit(self.mask, i as int));
        }
    }

    /// Writes the values.
    pub fn encode(&self, e: Endian) -> (r: Vec<u8>)
        ensures
            r@ == values_bytes(*self, e),
    {
        let mut out: Vec<u8> = Vec::new();
        put_u64(&mut out, self.bits, e);
        put_u64(&mut out, self.mask, e);
        out
    }

    /// Reads values.
    pub fn decode(buf: &[u8], e: Endian) -> (r: Result<LineValues, Error>)
        ensures
            match r {
                Ok(v) => values_of(buf@, e) == Some(v),
                Err(err) => err == Error::ProtocolError && values_of(buf@, e) is None,
            },
    {
        if buf.len() != LINE_VALUES_SIZE {
            return Err(Error::ProtocolError);
        }
        Ok(LineValues { bits: get_u64(buf, 0, e), mask: get_u64(buf, 8, e) })
    }
}

/// Values that are written and read again are the same values.
pub proof fn lemma_values_round_trip(v: LineValues, e: Endian)
    ensures
        values_of(values_bytes(v, e), e) == Some(v),
{
    let none = Seq::<u8>::empty();
    let bytes = values_bytes(v, e);
    assert(bytes =~= none + u64_bytes(v.bits, e) + u64_bytes(v.mask, e));
    lemma_u64_at(none, v.bits, e, u64_bytes(v.mask, e));
    assert(bytes =~= u64_bytes(v.bits, e) + u64_bytes(v.mask, e) + none);
    lemma_u64_at(u64_bytes(v.bits, e), v.mask, e, none);
}

/// The kind of the attribute in place `k` of line information.
pub open spec fn info_attr_id(buf: Seq<u8>, k: int, e: Endian) -> u32 {
    u32_at(buf, 80 + 16 * k, e)
}

/// The attribute at `k` is the first, among the `n` that the information
/// has, to give a debounce period.
pub open spec fn first_debounce(buf: Seq<u8>, n: int, k: int, e: Endian) -> bool {
    &&& 0 <= k < n
    &&& info_attr_id(buf, k, e) == ATTR_ID_DEBOUNCE
    &&& forall|j: int| 0 <= j < k ==> info_attr_id(buf, j, e) != ATTR_ID_DEBOUNCE
}

/// The debounce period that line information reports: that of the first
/// of its attributes to give one.
pub open spec fn info_debounce(buf: Seq<u8>, n: int, e: Endian) -> Option<u32> {
    if exists|k: int| first_debounce(buf, n, k, e) {
        Some(u32_at(buf, 80 + 16 * (choose|k: int| first_debounce(buf, n, k, e)) + 8, e))
    } else {
        None
    }
}

/// The line information that a buffer holds; none where it has not the
/// size of it, or claims more than ten attributes. A line that is no
/// output is an input. Flags and attributes that say nothing of what is
/// reported are passed over.
pub open spec fn info_of(buf: Seq<u8>, e: Endian) -> Option<LineInfoView> {
    if buf.len() != LINE_INFO_SIZE || u32_at(buf, 68, e) > ATTRS_MAX {
        None
    } else {
        let flags = u64_at(buf, 72, e);
        Some(
            LineInfoView {
                offset: u32_at(buf, 64, e),
                name: text_of(buf.subrange(0, 32)),
                consumer: text_of(buf.subrange(32, 64)),
                used: flags & FLAG_USED != 0,
                direction: if flags & FLAG_OUTPUT != 0 {
                    Direction::Output
                } else {
                    Direction::Input
                },
                active_low: polarity_of(flags),
                bias: bias_of(flags),
                edge_detection: edge_of(flags),
                debounce_period_us: info_debounce(buf, u32_at(buf, 68, e) as int, e),
            },
        )
    }
}

fn find_debounce(buf: &[u8], n: usize, e: Endian) -> (r: Option<u32>)
    requires
        buf@.len() == LINE_INFO_SIZE,
        n <= ATTRS_MAX,
    ensures
        r == info_debounce(buf@, n as int, e),
{
    let mut k: usize = 0;
    while k < n
        invariant
            k <= n <= ATTRS_MAX,
            buf@.len() == LINE_INFO_SIZE,
            forall|j: int| 0 <= j < k ==> info_attr_id(buf@, j, e) != ATTR_ID_DEBOUNCE,
        decreases n - k,
    {
        if get_u32(buf, 80 + 16 * k, e) == ATTR_ID_DEBOUNCE {
            proof {
                assert(first_debounce(buf@, n as int, k as int, e));
                let c = choose|c: int| first_debounce(buf@, n as int, c, e);
                assert(c == k);
            }
            return Some(get_u32(buf, 80 + 16 * k + 8, e));
        }
        k = k + 1;
    }
    proof {
        assert forall|c: int| !first_debounce(buf@, n as int, c, e) by {
            if 0 <= c < n {
                assert(info_attr_id(buf@, c, e) != ATTR_ID_DEBOUNCE);
            }
        }
    }
    None
}

/// Reads what the kernel says of a line.
pub fn decode_line_info(buf: &[u8], e: Endian) -> (r: Result<LineInfo, Error>)
    ensures
        match r {
            Ok(info) => info_of(buf@, e) == Some(info@),
            Err(err) => err == Error::ProtocolError && info_of(buf@, e) is None,
        },
{
    if buf.len() != LINE_INFO_SIZE {
        return Err(Error::ProtocolError);
    }
    let n = get_u32(buf, 68, e);
    if n > ATTRS_MAX as u32 {
        return Err(Error::ProtocolError);
    }
    let n = n as usize;
    let flags = get_u64(buf, 72, e);
    let debounce = find_debounce(buf, n, e);
    let shape = config_from(flags, debounce, false);
    Ok(
        LineInfo {
            offset: get_u32(buf, 64, e),
            name: get_name(buf, 0),
            consumer: get_name(buf, 32),
            used: flags & FLAG_USED != 0,
            direction: if flags & FLAG_OUTPUT != 0 {
                Direction::Output
            } else {
                Direction::Input
            },
            active_low: shape.active_low,
            bias: shape.bias,
            edge_detection: shape.edge_detection,
            debounce_period_us: debounce,
        },
    )
}

// The numbers that tell the kinds of edge event apart.
pub const EVENT_ID_RISING: u32 = 1;

pub const EVENT_ID_FALLING: u32 = 2;

/// The edge event written at a place; none where its kind is not known.
pub open spec fn event_at(buf: Seq<u8>, at: int, e: Endian) -> Option<EdgeEvent> {
    let id = u32_at(buf, at + 8, e);
    if id != EVENT_ID_RISING && id != EVENT_ID_FALLING {
        None
    } else {
        Some(
            EdgeEvent {
                offset: u32_at(buf, at + 12, e),
                kind: if id == EVENT_ID_RISING {
                    EdgeKind::Rising
                } else {
                    EdgeKind::Falling
                },
                timestamp_ns: u64_at(buf, at, e),
                seqno: u32_at(buf, at + 16, e),
                line_seqno: u32_at(buf, at + 20, e),
            },
        )
    }
}

/// Reads the edge event at a place in a buffer.
pub fn get_event(buf: &[u8], at: usize, e: Endian) -> (r: Option<EdgeEvent>)
    requires
        at + LINE_EVENT_SIZE <= buf@.len(),
    ensures
        r == event_at(buf@, at as int, e),
{
    let size = buf.len();
    assert(at + LINE_EVENT_SIZE <= size);
    let id = get_u32(buf, at + 8, e);
    if id != EVENT_ID_RISING && id != EVENT_ID_FALLING {
        return None;
    }
    Some(
        EdgeEvent {
            offset: get_u32(buf, at + 12, e),
            kind: if id == EVENT_ID_RISING {
                EdgeKind::Rising
            } else {
                EdgeKind::Falling
            },
            timestamp_ns: get_u64(buf, at, e),
            seqno: get_u32(buf, at + 16, e),
            line_seqno: get_u32(buf, at + 20, e),
        },
    )
}

impl LineRequest {
    /// Makes the request for a set of lines, each with its own
    /// configuration. It cannot be made for more than 64 lines, nor where
    /// the lines differ so much that ten attributes do not tell them apart.
    pub fn from_lines(lines: &Vec<LineSpec>, consumer: &[u8], event_buffer_size: u32) -> (r: Result<
        LineRequest,
        Error,
    >)
        ensures
            match r {
                Ok(req) => {
                    &&& lines@.len() <= LINES_MAX
                    &&& req@.offsets == offsets_of(lines@)
                    &&& req@.consumer == consumer@
                    &&& req@.config == wire_config(configs_of(lines@))
                    &&& req@.event_buffer_size == event_buffer_size
                    &&& req@.encodable()
                },
                Err(err) => err == Error::InvalidArgument && (lines@.len() > LINES_MAX || wire_config(
                    configs_of(lines@),
                ).attrs.len() > ATTRS_MAX),
            },
    {
        let mut offsets: Vec<u32> = Vec::new();
        let mut configs: Vec<LineConfig> = Vec::new();
        let mut i: usize = 0;
        while i < lines.len()
            invariant
                i <= lines@.len(),
                offsets@ == offsets_of(lines@.subrange(0, i as int)),
                configs@ == configs_of(lines@.subrange(0, i as int)),
            decreases lines@.len() - i,
        {
            offsets.push(lines[i].offset);
            configs.push(lines[i].config);
            proof {
                assert(offsets@ =~= offsets_of(lines@.subrange(0, i + 1)));
                assert(configs@ =~= configs_of(lines@.subrange(0, i + 1)));
            }
            i = i + 1;
        }
        assert(lines@.subrange(0, i as int) =~= lines@);
        let config = match WireConfig::from_configs(&configs) {
            Ok(config) => config,
            Err(err) => {
                return Err(err);
            },
        };
        proof {
            lemma_wire_config_encodable(configs@);
        }
        let label = get_bytes(consumer, 0, consumer.len());
        assert(consumer@.subrange(0, consumer@.len() as int) =~= consumer@);
        Ok(LineRequest { offsets, consumer: label, config, event_buffer_size })
    }
}

} // verus!
