//! What is written in the layouts of the first generation is read back.

use vstd::prelude::*;
use crate::v1::{
    event_request_bytes, event_request_of, handle_request_bytes, handle_request_of, EventRequestView,
    HandleRequestView, LINES_MAX,
};
use crate::wire::{
    lemma_u32_at, lemma_u32_at_within, lemma_u32s_at, lemma_u32s_len, name_field, text_of, u32_at,
    u32_bytes, u32s_bytes, zeros, Endian,
};

verus! {

/// A handle request that is written and read again is the same request,
/// but for a consumer label that the name field cannot hold whole.
pub proof fn lemma_handle_request_round_trip(r: HandleRequestView, e: Endian)
    requires
        r.encodable(),
    ensures
        handle_request_bytes(r, e).len() == 364,
        handle_request_of(handle_request_bytes(r, e), e) == Some(
            HandleRequestView { consumer: text_of(name_field(r.consumer)), ..r },
        ),
{
    let bytes = handle_request_bytes(r, e);
    let n = r.offsets.len() as int;
    let offsets = u32s_bytes(r.offsets, e);
    let unused = zeros(4 * (LINES_MAX - n));
    let flags = u32_bytes(r.flags, e);
    let pad = zeros(LINES_MAX - n);
    let name = name_field(r.consumer);
    let count = u32_bytes(n as u32, e);
    let none = Seq::<u8>::empty();
    lemma_u32s_len(r.offsets, e);
    assert(bytes.len() == 364);
    assert(bytes =~= (offsets + unused + flags + r.values + pad + name) + count + zeros(4));
    lemma_u32_at(offsets + unused + flags + r.values + pad + name, n as u32, e, zeros(4));
    assert(bytes =~= (offsets + unused) + flags + (r.values + pad + name + count + zeros(4)));
    lemma_u32_at(offsets + unused, r.flags, e, r.values + pad + name + count + zeros(4));
    assert(bytes.subrange(260, 260 + n) =~= r.values);
    assert(bytes.subrange(324, 356) =~= name);
    assert forall|i: int| 0 <= i < n implies u32_at(bytes, 4 * i, e) == r.offsets[i] by {
        lemma_u32s_at(r.offsets, e, i);
        assert(bytes =~= none + offsets + (unused + flags + r.values + pad + name + count + zeros(4)));
        lemma_u32_at_within(none, offsets, unused + flags + r.values + pad + name + count + zeros(4), 4 * i, e);
    }
    let back = handle_request_of(bytes, e);
    assert(back is Some);
    assert(back.unwrap().offsets =~= r.offsets);
}

/// An event request that is written and read again is the same request,
/// but for a consumer label that the name field cannot hold whole.
pub proof fn lemma_event_request_round_trip(r: EventRequestView, e: Endian)
    ensures
        event_request_bytes(r, e).len() == 48,
        event_request_of(event_request_bytes(r, e), e) == Some(
            EventRequestView { consumer: text_of(name_field(r.consumer)), ..r },
        ),
{
    let bytes = event_request_bytes(r, e);
    let offset = u32_bytes(r.offset, e);
    let handle = u32_bytes(r.handle_flags, e);
    let event = u32_bytes(r.event_flags, e);
    let name = name_field(r.consumer);
    let none = Seq::<u8>::empty();
    assert(bytes =~= none + offset + (handle + event + name + zeros(4)));
    lemma_u32_at(none, r.offset, e, handle + event + name + zeros(4));
    assert(bytes =~= offset + handle + (event + name + zeros(4)));
    lemma_u32_at(offset, r.handle_flags, e, event + name + zeros(4));
    assert(bytes =~= (offset + handle) + event + (name + zeros(4)));
    lemma_u32_at(offset + handle, r.event_flags, e, name + zeros(4));
    assert(bytes.subrange(12, 44) =~= name);
}

} // verus!
