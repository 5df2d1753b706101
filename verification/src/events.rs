//! The stream of edge events of a request.
//!
//! The kernel numbers the events of a request as it detects them. Where it
//! has to drop events, the numbers of those that arrive show a gap, and the
//! stream counts what fell into it.

use vstd::prelude::*;
use crate::error::Error;
use crate::line::{AbiVersion, EdgeEvent, EdgeKind};
use crate::v1;
use crate::v2;
use crate::v2_data;
use crate::wire::Endian;

verus! {

/// How long to wait for an event.
#[derive(Clone, Copy, Debug, PartialEq, Eq, Structural)]
pub enum Wait {
    /// Look once, and do not wait.
    Poll,
    /// Wait this many milliseconds at most.
    Until(u64),
    /// Wait until an event comes or the descriptor is closed.
    Forever,
}

/// Why a wait ended.
#[derive(Clone, Copy, Debug, PartialEq, Eq, Structural)]
pub enum Wake {
    Readable,
    TimedOut,
    HungUp,
}

pub open spec fn spec_wait_for(timeout_ms: Option<u64>) -> Wait {
    match timeout_ms {
        None => Wait::Forever,
        Some(t) => if t == 0 {
            Wait::Poll
        } else {
            Wait::Until(t)
        },
    }
}

/// The wait that a timeout asks for: none waits for ever, zero does not
/// wait at all.
#[verifier::when_used_as_spec(spec_wait_for)]
pub fn wait_for(timeout_ms: Option<u64>) -> (r: Wait)
    ensures
        r == spec_wait_for(timeout_ms),
{
    match timeout_ms {
        None => Wait::Forever,
        Some(t) => if t == 0 {
            Wait::Poll
        } else {
            Wait::Until(t)
        },
    }
}

/// The record in place `k` of a buffer of events of the second generation.
pub open spec fn record(buf: Seq<u8>, k: int, e: Endian) -> Option<EdgeEvent> {
    v2_data::event_at(buf, 48 * k, e)
}

/// The record in place `k` of a buffer of events of the first generation,
/// which says neither the line nor the number of the event: the line is
/// that of the stream, and the events are numbered as they come.
pub open spec fn counted_record(buf: Seq<u8>, k: int, e: Endian, offset: u32, last: u32) -> Option<
    EdgeEvent,
> {
    match v1::event_at(buf, 16 * k, e) {
        Some((timestamp_ns, kind)) => Some(
            EdgeEvent {
                offset,
                kind,
                timestamp_ns,
                seqno: (last + 1 + k) as u32,
                line_seqno: (last + 1 + k) as u32,
            },
        ),
        None => None,
    }
}

/// The events that a buffer holds, one after another, each of the size of
/// one record. There are none where the buffer ends inside a record, or a
/// record is of no known kind, or the numbers run out.
pub open spec fn events_in(abi: AbiVersion, e: Endian, offset: u32, last: u32, buf: Seq<u8>) -> Option<
    Seq<EdgeEvent>,
> {
    match abi {
        AbiVersion::V2 => {
            let n = buf.len() as int / 48;
            if buf.len() % 48 != 0 || exists|k: int| 0 <= k < n && record(buf, k, e) is None {
                None
            } else {
                Some(Seq::new(n as nat, |k: int| record(buf, k, e).unwrap()))
            }
        },
        AbiVersion::V1 => {
            let n = buf.len() as int / 16;
            if buf.len() % 16 != 0 || last + n > u32::MAX || exists|k: int|
                0 <= k < n && counted_record(buf, k, e, offset, last) is None {
                None
            } else {
                Some(Seq::new(n as nat, |k: int| counted_record(buf, k, e, offset, last).unwrap()))
            }
        },
    }
}

/// The numbers of the events rise, from above the number of the last event
/// that came before.
pub open spec fn rising_from(last: u32, events: Seq<EdgeEvent>) -> bool {
    &&& forall|k: int| 0 <= k < events.len() ==> last < (#[trigger] events[k]).seqno
    &&& forall|j: int, k: int|
        0 <= j < k < events.len() ==> (#[trigger] events[j]).seqno < (#[trigger] events[k]).seqno
}

/// The number of the last event delivered, after more events.
pub open spec fn last_after(last: u32, events: Seq<EdgeEvent>) -> u32 {
    if events.len() == 0 {
        last
    } else {
        events.last().seqno
    }
}

/// The events that the kernel dropped before and between the events
/// delivered: the numbers passed over.
pub open spec fn lost_in(last: u32, events: Seq<EdgeEvent>) -> int {
    last_after(last, events) - last - events.len()
}

/// The numbers passed over, summed gap by gap.
pub open spec fn gaps(last: u32, events: Seq<EdgeEvent>) -> int
    decreases events.len(),
{
    if events.len() == 0 {
        0
    } else {
        gaps(last, events.drop_last()) + (events.last().seqno - last_after(last, events.drop_last()) - 1)
    }
}

/// The count of lost events is the sum of the gaps in the numbers, and no
/// gap is negative.
pub proof fn lemma_lost_is_sum_of_gaps(last: u32, events: Seq<EdgeEvent>)
    requires
        rising_from(last, events),
    ensures
        lost_in(last, events) == gaps(last, events),
        0 <= gaps(last, events),
        last <= last_after(last, events),
    decreases events.len(),
{
    if events.len() > 0 {
        let front = events.drop_last();
        assert(rising_from(last, front)) by {
            assert forall|k: int| 0 <= k < front.len() implies last < (#[trigger] front[k]).seqno by {
                assert(front[k] == events[k]);
            }
            assert forall|j: int, k: int| 0 <= j < k < front.len() implies (#[trigger] front[j]).seqno < (
            #[trigger] front[k]).seqno by {
                assert(front[j] == events[j] && front[k] == events[k]);
            }
        }
        lemma_lost_is_sum_of_gaps(last, front);
        if front.len() > 0 {
            assert(front.last() == events[events.len() - 2]);
            assert(events[events.len() - 2].seqno < events[events.len() - 1].seqno);
        } else {
            assert(last < events[0].seqno);
        }
    }
}

/// The edge events of one request: how many were delivered, how many
/// were lost, and the number of the last.
pub struct EventStream {
    abi: AbiVersion,
    endian: Endian,
    offset: u32,
    last: u32,
    delivered: u64,
    lost: u64,
    closed: bool,
}

impl EventStream {
    #[verifier::type_invariant]
    spec fn inv(&self) -> bool {
        self.delivered + self.lost == self.last
    }

    /// The generation of the records that the stream reads.
    pub closed spec fn abi(&self) -> AbiVersion {
        self.abi
    }

    /// The byte order of the records.
    pub closed spec fn endian(&self) -> Endian {
        self.endian
    }

    /// The line of the stream, for the generation whose records name none.
    pub closed spec fn offset(&self) -> u32 {
        self.offset
    }

    /// The number of the last event delivered; zero before the first.
    pub closed spec fn last(&self) -> u32 {
        self.last
    }

    /// How many events the stream has delivered.
    pub closed spec fn delivered(&self) -> nat {
        self.delivered as nat
    }

    /// How many events the kernel dropped.
    pub closed spec fn lost(&self) -> nat {
        self.lost as nat
    }

    /// Whether the stream has ended.
    pub closed spec fn closed(&self) -> bool {
        self.closed
    }

    /// Why a buffer gives no events: the stream is closed, the buffer holds
    /// no run of whole records, or the numbers of its events do not rise.
    pub open spec fn decode_error(&self, buf: Seq<u8>) -> Option<Error> {
        if self.closed() {
            Some(Error::Closed)
        } else {
            match events_in(self.abi(), self.endian(), self.offset(), self.last(), buf) {
                None => Some(Error::ProtocolError),
                Some(events) => if rising_from(self.last(), events) {
                    None
                } else {
                    Some(Error::ProtocolError)
                },
            }
        }
    }

    /// The stream of a request that has delivered nothing yet.
    pub fn new(abi: AbiVersion, endian: Endian, offset: u32) -> (r: EventStream)
        ensures
            r.abi() == abi,
            r.endian() == endian,
            r.offset() == offset,
            r.last() == 0,
            r.delivered() == 0,
            r.lost() == 0,
            !r.closed(),
    {
        EventStream { abi, endian, offset, last: 0, delivered: 0, lost: 0, closed: false }
    }

    /// The number of events delivered.
    pub fn delivered_events(&self) -> (r: u64)
        ensures
            r == self.delivered(),
            self.delivered() + self.lost() == self.last(),
    {
        proof {
            use_type_invariant(self);
        }
        self.delivered
    }

    /// The number of events that the kernel dropped. With the events
    /// delivered, they make up every number up to the last.
    pub fn lost_events(&self) -> (r: u64)
        ensures
            r == self.lost(),
            self.delivered() + self.lost() == self.last(),
    {
        proof {
            use_type_invariant(self);
        }
        self.lost
    }

    /// Whether the stream has ended.
    pub fn is_closed(&self) -> (r: bool)
        ensures
            r == self.closed(),
    {
        self.closed
    }

    /// Ends the stream. Whatever is asked of it afterwards fails as closed.
    pub fn close(&mut self)
        ensures
            final(self).closed(),
            final(self).abi() == old(self).abi(),
            final(self).endian() == old(self).endian(),
            final(self).offset() == old(self).offset(),
            final(self).last() == old(self).last(),
            final(self).delivered() == old(self).delivered(),
            final(self).lost() == old(self).lost(),
    {
        proof {
            use_type_invariant(&*self);
        }
        self.closed = true;
    }

    /// Says what to do when a wait has ended: read, where there is
    /// something to read; nothing, where the time ran out. A descriptor
    /// that was closed under the wait ends the stream.
    pub fn woken(&mut self, wake: Wake) -> (r: Result<bool, Error>)
        ensures
            final(self).abi() == old(self).abi(),
            final(self).endian() == old(self).endian(),
            final(self).offset() == old(self).offset(),
            final(self).last() == old(self).last(),
            final(self).delivered() == old(self).delivered(),
            final(self).lost() == old(self).lost(),
            final(self).closed() == (old(self).closed() || wake == Wake::HungUp),
            r == if final(self).closed() {
                Err::<bool, Error>(Error::Closed)
            } else {
                Ok::<bool, Error>(wake == Wake::Readable)
            },
    {
        proof {
            use_type_invariant(&*self);
        }
        if self.closed {
            return Err(Error::Closed);
        }
        match wake {
            Wake::HungUp => {
                self.closed = true;
                Err(Error::Closed)
            },
            Wake::TimedOut => Ok(false),
            Wake::Readable => Ok(true),
        }
    }

    /// Splits what was read from the descriptor into events.
    ///
    /// One read may bring several events. They are delivered in the order
    /// in which the kernel wrote them, and the count of lost events grows
    /// by the numbers passed over. Nothing changes where the buffer gives
    /// no events.
    pub fn decode(&mut self, buf: &[u8]) -> (r: Result<Vec<EdgeEvent>, Error>)
        ensures
            final(self).abi() == old(self).abi(),
            final(self).endian() == old(self).endian(),
            final(self).offset() == old(self).offset(),
            final(self).closed() == old(self).closed(),
            final(self).delivered() + final(self).lost() == final(self).last(),
            match r {
                Ok(events) => {
                    &&& old(self).decode_error(buf@) is None
                    &&& events_in(
                        old(self).abi(),
                        old(self).endian(),
                        old(self).offset(),
                        old(self).last(),
                        buf@,
                    ) == Some(events@)
                    &&& rising_from(old(self).last(), events@)
                    &&& final(self).last() == last_after(old(self).last(), events@)
                    &&& final(self).delivered() == old(self).delivered() + events@.len()
                    &&& final(self).lost() == old(self).lost() + lost_in(old(self).last(), events@)
                },
                Err(err) => {
                    &&& old(self).decode_error(buf@) == Some(err)
                    &&& final(self).last() == old(self).last()
                    &&& final(self).delivered() == old(self).delivered()
                    &&& final(self).lost() == old(self).lost()
                },
            },
    {
        proof {
            use_type_invariant(&*self);
        }
        if self.closed {
            return Err(Error::Closed);
        }
        let len = buf.len();
        let n: usize = match self.abi {
            AbiVersion::V1 => {
                if len % 16 != 0 {
                    return Err(Error::ProtocolError);
                }
                let n = len / 16;
                if n > (0xffff_ffff - self.last) as usize {
                    return Err(Error::ProtocolError);
                }
                n
            },
            AbiVersion::V2 => {
                if len % 48 != 0 {
                    return Err(Error::ProtocolError);
                }
                len / 48
            },
        };
        let mut out: Vec<EdgeEvent> = Vec::new();
        let mut latest: u32 = self.last;
        let mut k: usize = 0;
        while k < n
            invariant
                k <= n,
                buf@.len() == len,
                !self.closed(),
                self.delivered() + self.lost() == self.last(),
                self.abi() == AbiVersion::V1 ==> 16 * n == len && self.last() + n <= u32::MAX,
                self.abi() == AbiVersion::V2 ==> 48 * n == len,
                out@.len() == k,
                latest == last_after(self.last(), out@),
                rising_from(self.last(), out@),
                forall|j: int|
                    0 <= j < k ==> (match self.abi() {
                        AbiVersion::V1 => counted_record(buf@, j, self.endian(), self.offset(), self.last()),
                        AbiVersion::V2 => record(buf@, j, self.endian()),
                    }) == Some(#[trigger] out@[j]),
            decreases n - k,
        {
            let ghost before = out@;
            let found = match self.abi {
                AbiVersion::V1 => match v1::get_event(buf, k * 16, self.endian) {
                    Some((timestamp_ns, kind)) => {
                        let number: u32 = self.last + 1 + k as u32;
                        Some(
                            EdgeEvent {
                                offset: self.offset,
                                kind,
                                timestamp_ns,
                                seqno: number,
                                line_seqno: number,
                            },
                        )
                    },
                    None => None,
                },
                AbiVersion::V2 => v2_data::get_event(buf, k * 48, self.endian),
            };
            let event = match found {
                Some(event) => event,
                None => {
                    proof {
                        match self.abi() {
                            AbiVersion::V1 => {
                                assert(counted_record(
                                    buf@,
                                    k as int,
                                    self.endian(),
                                    self.offset(),
                                    self.last(),
                                ) is None);
                            },
                            AbiVersion::V2 => {
                                assert(record(buf@, k as int, self.endian()) is None);
                            },
                        }
                    }
                    return Err(Error::ProtocolError);
                },
            };
            if event.seqno <= latest {
                proof {
                    lemma_not_rising(self.abi(), self.endian(), self.offset(), self.last(), buf@, out@, event);
                }
                return Err(Error::ProtocolError);
            }
            out.push(event);
            proof {
                assert forall|j: int, m: int| 0 <= j < m < out@.len() implies (#[trigger] out@[j]).seqno < (
                #[trigger] out@[m]).seqno by {
                    if m < k {
                        assert(before[j].seqno < before[m].seqno);
                    } else if k > 0 {
                        assert(before[j].seqno <= before[k - 1].seqno);
                    }
                }
            }
            latest = event.seqno;
            k = k + 1;
        }
        proof {
            lemma_all_records(self.abi(), self.endian(), self.offset(), self.last(), buf@, out@);
            lemma_lost_is_sum_of_gaps(self.last, out@);
        }
        let count = k as u64;
        *self = EventStream {
            abi: self.abi,
            endian: self.endian,
            offset: self.offset,
            last: latest,
            delivered: self.delivered + count,
            lost: self.lost + ((latest - self.last) as u64 - count),
            closed: self.closed,
        };
        Ok(out)
    }
}

proof fn lemma_all_records(
    abi: AbiVersion,
    e: Endian,
    offset: u32,
    last: u32,
    buf: Seq<u8>,
    out: Seq<EdgeEvent>,
)
    requires
        abi == AbiVersion::V1 ==> buf.len() == 16 * out.len() && last + out.len() <= u32::MAX,
        abi == AbiVersion::V2 ==> buf.len() == 48 * out.len(),
        forall|j: int|
            0 <= j < out.len() ==> (match abi {
                AbiVersion::V1 => counted_record(buf, j, e, offset, last),
                AbiVersion::V2 => record(buf, j, e),
            }) == Some(#[trigger] out[j]),
    ensures
        events_in(abi, e, offset, last, buf) == Some(out),
{
    match abi {
        AbiVersion::V1 => {
            assert forall|k: int| 0 <= k < out.len() implies !(counted_record(buf, k, e, offset, last) is None) by {
                assert(counted_record(buf, k, e, offset, last) == Some(out[k]));
            }
            assert(events_in(abi, e, offset, last, buf).unwrap() =~= out);
        },
        AbiVersion::V2 => {
            assert forall|k: int| 0 <= k < out.len() implies !(record(buf, k, e) is None) by {
                assert(record(buf, k, e) == Some(out[k]));
            }
            assert(events_in(abi, e, offset, last, buf).unwrap() =~= out);
        },
    }
}

proof fn lemma_not_rising(
    abi: AbiVersion,
    e: Endian,
    offset: u32,
    last: u32,
    buf: Seq<u8>,
    out: Seq<EdgeEvent>,
    event: EdgeEvent,
)
    requires
        abi == AbiVersion::V1 ==> buf.len() % 16 == 0 && out.len() < buf.len() / 16 && last + buf.len() / 16
            <= u32::MAX,
        abi == AbiVersion::V2 ==> buf.len() % 48 == 0 && out.len() < buf.len() / 48,
        forall|j: int|
            0 <= j < out.len() ==> (match abi {
                AbiVersion::V1 => counted_record(buf, j, e, offset, last),
                AbiVersion::V2 => record(buf, j, e),
            }) == Some(#[trigger] out[j]),
        (match abi {
            AbiVersion::V1 => counted_record(buf, out.len() as int, e, offset, last),
            AbiVersion::V2 => record(buf, out.len() as int, e),
        }) == Some(event),
        event.seqno <= last_after(last, out),
    ensures
        events_in(abi, e, offset, last, buf) matches Some(events) ==> !rising_from(last, events),
{
    let k = out.len() as int;
    if events_in(abi, e, offset, last, buf) is Some {
        let events = events_in(abi, e, offset, last, buf).unwrap();
        assert(events[k] == event);
        if k > 0 {
            assert(events[k - 1] == out[k - 1]);
            assert(!(events[k - 1].seqno < events[k].seqno));
        } else {
            assert(!(last < events[0].seqno));
        }
    }
}

} // verus!
