//! What is written in the layouts of the second generation is read back.

use vstd::prelude::*;
use crate::v2::{
    attribute_at, attribute_bytes, attributes_bytes, config_at, config_bytes, lemma_attributes_len,
    lemma_config_len, request_bytes, request_of, slot, Attribute, ConfigAttribute, LineRequestView,
    WireConfigView, ATTRS_MAX, LINES_MAX, LINE_CONFIG_SIZE,
};
use crate::wire::{
    lemma_u32_at, lemma_u32_at_within, lemma_u32s_at, lemma_u32s_len, lemma_u64_at,
    lemma_u64_at_within, name_field, text_of, u32_at, u32_bytes, u32s_bytes, u64_bytes, zeros, Endian,
};

verus! {

/// An attribute that is written is read back.
pub proof fn lemma_attribute_round_trip(a: ConfigAttribute, e: Endian)
    ensures
        attribute_at(attribute_bytes(a, e), 0, e) == Some(a),
{
    let bytes = attribute_bytes(a, e);
    let none = Seq::<u8>::empty();
    let mask = u64_bytes(a.mask, e);
    match a.attr {
        Attribute::Flags(f) => {
            let id = u32_bytes(1, e);
            assert(bytes =~= none + id + (zeros(4) + u64_bytes(f, e) + mask));
            lemma_u32_at(none, 1, e, zeros(4) + u64_bytes(f, e) + mask);
            assert(bytes =~= (id + zeros(4)) + u64_bytes(f, e) + mask);
            lemma_u64_at(id + zeros(4), f, e, mask);
            assert(bytes =~= (id + zeros(4) + u64_bytes(f, e)) + mask + none);
            lemma_u64_at(id + zeros(4) + u64_bytes(f, e), a.mask, e, none);
        },
        Attribute::Values(v) => {
            let id = u32_bytes(2, e);
            assert(bytes =~= none + id + (zeros(4) + u64_bytes(v, e) + mask));
            lemma_u32_at(none, 2, e, zeros(4) + u64_bytes(v, e) + mask);
            assert(bytes =~= (id + zeros(4)) + u64_bytes(v, e) + mask);
            lemma_u64_at(id + zeros(4), v, e, mask);
            assert(bytes =~= (id + zeros(4) + u64_bytes(v, e)) + mask + none);
            lemma_u64_at(id + zeros(4) + u64_bytes(v, e), a.mask, e, none);
        },
        Attribute::Debounce(p) => {
            let id = u32_bytes(3, e);
            assert(bytes =~= none + id + (zeros(4) + u32_bytes(p, e) + zeros(4) + mask));
            lemma_u32_at(none, 3, e, zeros(4) + u32_bytes(p, e) + zeros(4) + mask);
            assert(bytes =~= (id + zeros(4)) + u32_bytes(p, e) + (zeros(4) + mask));
            lemma_u32_at(id + zeros(4), p, e, zeros(4) + mask);
            assert(bytes =~= (id + zeros(4) + u32_bytes(p, e) + zeros(4)) + mask + none);
            lemma_u64_at(id + zeros(4) + u32_bytes(p, e) + zeros(4), a.mask, e, none);
        },
    }
}

/// An attribute inside a piece of a buffer is read from the piece alone.
pub proof fn lemma_attribute_at_within(before: Seq<u8>, piece: Seq<u8>, after: Seq<u8>, at: int, e: Endian)
    requires
        0 <= at,
        at + 24 <= piece.len(),
    ensures
        attribute_at(before + piece + after, before.len() + at, e) == attribute_at(piece, at, e),
{
    lemma_u32_at_within(before, piece, after, at, e);
    lemma_u32_at_within(before, piece, after, at + 8, e);
    lemma_u64_at_within(before, piece, after, at + 8, e);
    lemma_u64_at_within(before, piece, after, at + 16, e);
}

/// Each attribute of a run is read at its place.
pub proof fn lemma_attributes_at(attrs: Seq<ConfigAttribute>, e: Endian, k: int)
    requires
        0 <= k < attrs.len(),
    ensures
        attribute_at(attributes_bytes(attrs, e), 24 * k, e) == Some(attrs[k]),
    decreases attrs.len(),
{
    let front = attributes_bytes(attrs.drop_last(), e);
    let last = attribute_bytes(attrs.last(), e);
    let none = Seq::<u8>::empty();
    lemma_attributes_len(attrs.drop_last(), e);
    if k < attrs.len() - 1 {
        lemma_attributes_at(attrs.drop_last(), e, k);
        assert(attributes_bytes(attrs, e) =~= none + front + last);
        lemma_attribute_at_within(none, front, last, 24 * k, e);
    } else {
        lemma_attribute_round_trip(attrs.last(), e);
        assert(attributes_bytes(attrs, e) =~= front + last + none);
        lemma_attribute_at_within(front, last, none, 0, e);
    }
}

/// A configuration that is written is read back.
pub proof fn lemma_config_round_trip(c: WireConfigView, e: Endian)
    requires
        c.attrs.len() <= ATTRS_MAX,
    ensures
        config_at(config_bytes(c, e), 0, e) == Some(c),
{
    let bytes = config_bytes(c, e);
    let none = Seq::<u8>::empty();
    let flags = u64_bytes(c.flags, e);
    let count = u32_bytes(c.attrs.len() as u32, e);
    let list = attributes_bytes(c.attrs, e);
    let rest = zeros(24 * (ATTRS_MAX - c.attrs.len()));
    lemma_attributes_len(c.attrs, e);
    assert(bytes =~= none + flags + (count + zeros(20) + list + rest));
    lemma_u64_at(none, c.flags, e, count + zeros(20) + list + rest);
    assert(bytes =~= flags + count + (zeros(20) + list + rest));
    lemma_u32_at(flags, c.attrs.len() as u32, e, zeros(20) + list + rest);
    assert forall|k: int| 0 <= k < c.attrs.len() implies slot(bytes, 0, k, e) == Some(c.attrs[k]) by {
        lemma_attributes_at(c.attrs, e, k);
        assert(bytes =~= (flags + count + zeros(20)) + list + rest);
        lemma_attribute_at_within(flags + count + zeros(20), list, rest, 24 * k, e);
    }
    let back = config_at(bytes, 0, e);
    assert(back is Some);
    assert(back.unwrap().attrs =~= c.attrs);
}

/// A configuration inside a buffer is read from its own bytes alone.
pub proof fn lemma_config_at_within(before: Seq<u8>, piece: Seq<u8>, after: Seq<u8>, e: Endian)
    requires
        piece.len() == LINE_CONFIG_SIZE,
    ensures
        config_at(before + piece + after, before.len() as int, e) == config_at(piece, 0, e),
{
    let whole = before + piece + after;
    let at = before.len() as int;
    lemma_u64_at_within(before, piece, after, 0, e);
    lemma_u32_at_within(before, piece, after, 8, e);
    let n = u32_at(piece, 8, e);
    if n <= ATTRS_MAX {
        assert forall|k: int| 0 <= k < n implies slot(whole, at, k, e) == slot(piece, 0, k, e) by {
            lemma_attribute_at_within(before, piece, after, 32 + 24 * k, e);
        }
        if exists|k: int| 0 <= k < n && slot(piece, 0, k, e) is None {
            let k = choose|k: int| 0 <= k < n && slot(piece, 0, k, e) is None;
            assert(slot(whole, at, k, e) is None);
        } else {
            assert forall|k: int| 0 <= k < n implies !(slot(whole, at, k, e) is None) by {
                assert(slot(whole, at, k, e) == slot(piece, 0, k, e));
            }
            assert(config_at(whole, at, e).unwrap().attrs =~= config_at(piece, 0, e).unwrap().attrs);
        }
    }
}

/// A request that is written and read again is the same request, but for a
/// consumer label that the name field cannot hold whole.
pub proof fn lemma_request_round_trip(r: LineRequestView, e: Endian)
    requires
        r.offsets.len() <= LINES_MAX,
        r.config.attrs.len() <= ATTRS_MAX,
    ensures
        request_bytes(r, e).len() == 592,
        request_of(request_bytes(r, e), e) == Some(
            LineRequestView { consumer: text_of(name_field(r.consumer)), ..r },
        ),
{
    let bytes = request_bytes(r, e);
    let offsets = u32s_bytes(r.offsets, e);
    let unused = zeros(4 * (LINES_MAX - r.offsets.len()));
    let name = name_field(r.consumer);
    let config = config_bytes(r.config, e);
    let count = u32_bytes(r.offsets.len() as u32, e);
    let size = u32_bytes(r.event_buffer_size, e);
    let tail = zeros(20) + zeros(4);
    let none = Seq::<u8>::empty();
    lemma_u32s_len(r.offsets, e);
    lemma_config_len(r.config, e);
    assert(bytes.len() == 592);
    assert(bytes =~= (offsets + unused + name + config) + count + (size + tail));
    lemma_u32_at(offsets + unused + name + config, r.offsets.len() as u32, e, size + tail);
    assert(bytes =~= (offsets + unused + name + config + count) + size + tail);
    lemma_u32_at(offsets + unused + name + config + count, r.event_buffer_size, e, tail);
    assert(bytes =~= (offsets + unused + name) + config + (count + size + tail));
    lemma_config_at_within(offsets + unused + name, config, count + size + tail, e);
    lemma_config_round_trip(r.config, e);
    assert(bytes.subrange(256, 288) =~= name);
    assert forall|i: int| 0 <= i < r.offsets.len() implies u32_at(bytes, 4 * i, e) == r.offsets[i] by {
        lemma_u32s_at(r.offsets, e, i);
        assert(bytes =~= none + offsets + (unused + name + config + count + size + tail));
        lemma_u32_at_within(none, offsets, unused + name + config + count + size + tail, 4 * i, e);
    }
    let back = request_of(bytes, e);
    assert(back is Some);
    assert(back.unwrap().offsets =~= r.offsets);
}

} // verus!
