//! What holds of the library as a whole: what is written for the kernel is
//! read back as it was meant, and values pass a line's polarity both ways.

use vstd::prelude::*;
use crate::error::Error;
use crate::line::{configs_of, offsets_of, AbiVersion, LineConfig, LineSpec, Value};
use crate::request::{position, query_values, request_error, write_values, written};
use crate::v1::{event_request_bytes, event_request_of, handle_request_bytes, handle_request_of};
use crate::v1_config::{request_for, V1RequestView};
use crate::v1_config;
use crate::v1_laws::{lemma_event_request_round_trip, lemma_handle_request_round_trip};
use crate::v2::{bit, request_bytes, request_of, LineRequestView, ATTRS_MAX, LINES_MAX};
use crate::v2_config::wire_config;
use crate::v2_config_laws::lemma_line_config_round_trip;
use crate::v2_data::{lemma_no_values, lemma_spec_select, lemma_spec_set};
use crate::v2_laws::lemma_request_round_trip;
use crate::wire::Endian;

verus! {

/// The request of the second generation that is made for a set of lines.
pub open spec fn v2_request(lines: Seq<LineSpec>, consumer: Seq<u8>, event_buffer_size: u32) -> LineRequestView {
    LineRequestView {
        offsets: offsets_of(lines),
        consumer,
        config: wire_config(configs_of(lines)),
        event_buffer_size,
    }
}

/// Second generation: the bytes written for a set of lines, read again,
/// name the same lines in the same order and ask of each what was asked:
/// direction, polarity, bias, edge detection, debounce period, and the
/// value of an output.
pub proof fn lemma_v2_round_trip(
    lines: Seq<LineSpec>,
    consumer: Seq<u8>,
    event_buffer_size: u32,
    e: Endian,
    i: int,
)
    requires
        lines.len() <= LINES_MAX,
        wire_config(configs_of(lines)).attrs.len() <= ATTRS_MAX,
        0 <= i < lines.len(),
    ensures
        request_of(request_bytes(v2_request(lines, consumer, event_buffer_size), e), e) matches Some(back)
            && back.offsets == offsets_of(lines) && back.event_buffer_size == event_buffer_size
            && back.config.line_config(i) == lines[i].config.carried(),
{
    lemma_request_round_trip(v2_request(lines, consumer, event_buffer_size), e);
    lemma_line_config_round_trip(configs_of(lines), i);
}

/// First generation: the bytes written for a set of lines, read again,
/// name the same lines in the same order and ask of each what was asked.
pub proof fn lemma_v1_round_trip(lines: Seq<LineSpec>, consumer: Seq<u8>, e: Endian, i: int)
    requires
        v1_config::request_error(configs_of(lines)) is None,
        0 <= i < lines.len(),
    ensures
        match request_for(lines, consumer) {
            V1RequestView::Handle(h) => handle_request_of(handle_request_bytes(h, e), e) matches Some(back)
                && back.offsets == offsets_of(lines) && V1RequestView::Handle(back).line_config(i)
                == lines[i].config.carried(),
            V1RequestView::Event(ev) => event_request_of(event_request_bytes(ev, e), e) matches Some(back)
                && seq![back.offset] == offsets_of(lines) && V1RequestView::Event(back).line_config(i)
                == lines[i].config.carried(),
        },
{
    v1_config::lemma_line_config_round_trip(lines, consumer, i);
    match request_for(lines, consumer) {
        V1RequestView::Handle(h) => {
            lemma_handle_request_round_trip(h, e);
        },
        V1RequestView::Event(ev) => {
            lemma_event_request_round_trip(ev, e);
        },
    }
}

/// More lines than a generation takes in one request cannot be requested
/// under it, whatever the other generation takes, and whatever is asked of
/// the lines.
pub proof fn lemma_line_cap(abi: AbiVersion, lines: Seq<LineSpec>)
    requires
        lines.len() > abi.spec_lines_max(),
    ensures
        request_error(abi, lines) == Some(Error::InvalidArgument),
{
}

/// The value of a line and its physical level are turned into each other
/// by the line's polarity. On a line that is active low the two differ:
/// the level that drives the line to a value stands for the other value,
/// and a level is reported as the value that it does not stand for.
pub proof fn lemma_polarity(v: Value, level: bool, active_low: bool)
    ensures
        Value::logical(v.physical(active_low), active_low) == v,
        Value::logical(level, active_low).physical(active_low) == level,
        Value::of_level(v.physical(true)) == v.flipped(),
        Value::of_level(v.physical(true)) != v,
        Value::logical(level, true) != Value::of_level(level),
        Value::of_level(v.physical(false)) == v,
        Value::logical(level, false) == Value::of_level(level),
{
}

/// Some update among the first `k` names the line at place `p`.
pub open spec fn touched(lines: Seq<LineSpec>, updates: Seq<(u32, Value)>, k: int, p: int) -> bool {
    exists|j: int| 0 <= j < k && position(lines, (#[trigger] updates[j]).0) == Some(p)
}

/// The update at `j` is the last among the first `k` to name the line at
/// place `p`.
pub open spec fn last_touch(lines: Seq<LineSpec>, updates: Seq<(u32, Value)>, k: int, p: int, j: int) -> bool {
    &&& 0 <= j < k
    &&& position(lines, updates[j].0) == Some(p)
    &&& forall|m: int| j < m < k ==> position(lines, (#[trigger] updates[m]).0) != Some(p)
}

/// Writing values changes values alone. A line that no update names is as
/// it was; a line that is named has the value of the last update that
/// names it, and the bytes for the kernel carry, in the line's place, the
/// physical level that the line's polarity makes of that value.
pub proof fn lemma_written(lines: Seq<LineSpec>, updates: Seq<(u32, Value)>, k: int, p: int)
    requires
        lines.len() <= 64,
        0 <= k <= updates.len(),
        0 <= p < lines.len(),
    ensures
        written(lines, updates, k).len() == lines.len(),
        written(lines, updates, k)[p].offset == lines[p].offset,
        written(lines, updates, k)[p].config == (LineConfig {
            value: written(lines, updates, k)[p].config.value,
            ..lines[p].config
        }),
        !touched(lines, updates, k, p) ==> written(lines, updates, k)[p] == lines[p] && write_values(
            lines,
            updates,
            k,
        ).spec_get(p) is None,
        forall|j: int| #[trigger]
            last_touch(lines, updates, k, p, j) ==> written(lines, updates, k)[p].config.value
                == updates[j].1 && write_values(lines, updates, k).spec_get(p) == Some(
                updates[j].1.physical(lines[p].config.active_low),
            ),
    decreases k,
{
    if k == 0 {
        lemma_no_values();
    } else {
        lemma_written(lines, updates, k - 1, p);
        let earlier = written(lines, updates, k - 1);
        let sent = write_values(lines, updates, k - 1);
        let update = updates[k - 1];
        match position(lines, update.0) {
            Some(q) => {
                lemma_written(lines, updates, k - 1, q);
                lemma_spec_set(sent, q, update.1.physical(lines[q].config.active_low));
                if q == p {
                    assert(touched(lines, updates, k, p));
                    assert forall|j: int| #[trigger] last_touch(lines, updates, k, p, j) implies j == k - 1 by {
                        if j < k - 1 {
                            assert(position(lines, updates[k - 1].0) != Some(p));
                        }
                    }
                } else {
                    lemma_touch_before(lines, updates, k, p);
                }
            },
            None => {
                lemma_touch_before(lines, updates, k, p);
            },
        }
    }
}

proof fn lemma_touch_before(lines: Seq<LineSpec>, updates: Seq<(u32, Value)>, k: int, p: int)
    requires
        0 < k <= updates.len(),
        position(lines, updates[k - 1].0) != Some(p),
    ensures
        touched(lines, updates, k, p) == touched(lines, updates, k - 1, p),
        forall|j: int| #[trigger]
            last_touch(lines, updates, k, p, j) ==> last_touch(lines, updates, k - 1, p, j),
{
    if touched(lines, updates, k, p) {
        let j = choose|j: int| 0 <= j < k && position(lines, (#[trigger] updates[j]).0) == Some(p);
        assert(0 <= j < k - 1 && position(lines, updates[j].0) == Some(p));
    }
    if touched(lines, updates, k - 1, p) {
        let j = choose|j: int| 0 <= j < k - 1 && position(lines, (#[trigger] updates[j]).0) == Some(p);
        assert(0 <= j < k && position(lines, updates[j].0) == Some(p));
    }
}

/// A query for values asks for exactly the lines that its offsets name.
pub proof fn lemma_query(lines: Seq<LineSpec>, offsets: Seq<u32>, k: int, p: int)
    requires
        lines.len() <= 64,
        0 <= k <= offsets.len(),
    ensures
        query_values(lines, offsets, k).bits == 0,
        bit(query_values(lines, offsets, k).mask, p) == (exists|j: int|
            0 <= j < k && position(lines, #[trigger] offsets[j]) == Some(p)),
    decreases k,
{
    if k == 0 {
        lemma_no_values();
    } else {
        lemma_query(lines, offsets, k - 1, p);
        let earlier = query_values(lines, offsets, k - 1);
        match position(lines, offsets[k - 1]) {
            Some(q) => {
                lemma_spec_select(earlier, q);
            },
            None => {},
        }
        if exists|j: int| 0 <= j < k && position(lines, #[trigger] offsets[j]) == Some(p) {
            let j = choose|j: int| 0 <= j < k && position(lines, #[trigger] offsets[j]) == Some(p);
            if j < k - 1 {
                assert(0 <= j < k - 1 && position(lines, offsets[j]) == Some(p));
            }
        }
        if exists|j: int| 0 <= j < k - 1 && position(lines, #[trigger] offsets[j]) == Some(p) {
            let j = choose|j: int| 0 <= j < k - 1 && position(lines, #[trigger] offsets[j]) == Some(p);
            assert(0 <= j < k && position(lines, offsets[j]) == Some(p));
        }
    }
}

} // verus!
