//! Laws of the eventlog format, proved against the model in `grammar`.
//!
//! The central result is `lemma_round_trip`: encoding any well-formed
//! `(types, events)` value per the grammar and decoding the resulting buffer
//! — with any trailing bytes appended — yields that value back, which also
//! shows that trailing bytes after the body's end marker never cause a
//! decode failure.

use crate::grammar::be16_at;
use crate::grammar::be32_at;
use crate::grammar::be64_at;
use crate::grammar::data_begin_tag;
use crate::grammar::data_end_tag;
use crate::grammar::encode_event;
use crate::grammar::encode_event_list;
use crate::grammar::encode_event_type;
use crate::grammar::encode_eventlog;
use crate::grammar::encode_size;
use crate::grammar::encode_type_list;
use crate::grammar::encode_u16;
use crate::grammar::encode_u32;
use crate::grammar::encode_u64;
use crate::grammar::header_begin_tag;
use crate::grammar::header_end_tag;
use crate::grammar::registry_of;
use crate::grammar::spec_decode_size;
use crate::grammar::spec_parse_event;
use crate::grammar::spec_parse_event_list;
use crate::grammar::spec_parse_event_type;
use crate::grammar::spec_parse_eventlog;
use crate::grammar::spec_parse_type_list;
use crate::grammar::spec_tag_at;
use crate::grammar::type_begin_tag;
use crate::grammar::type_end_tag;
use crate::grammar::wf_event;
use crate::grammar::wf_event_type;
use crate::grammar::wf_eventlog;
use crate::grammar::DecodeError;
use crate::grammar::EventSize;
use crate::grammar::SpecEvent;
use crate::grammar::SpecEventType;
use vstd::prelude::*;

verus! {

/// The size-policy field is a signed 16-bit value: every non-negative value
/// `n` decodes to `Constant(n)`, and every negative value decodes to
/// `Variable`.
pub proof fn lemma_size_policy_decode(n: i16)
    ensures
        n >= 0 ==> spec_decode_size(n as u16) == EventSize::Constant(n as u16),
        n < 0 ==> spec_decode_size(n as u16) == EventSize::Variable,
{
    assert(n >= 0 ==> (n as u16) < 0x8000) by (bit_vector);
    assert(n < 0 ==> (n as u16) >= 0x8000) by (bit_vector);
}

/// The size registry is a last-write-wins fold of the dictionary: an id is
/// registered exactly when some record declares it, and the policy registered
/// for it is the one of its latest declaration.
#[verifier::rlimit(50)]
pub proof fn lemma_registry_last_wins(types: Seq<SpecEventType>, id: u16)
    ensures
        registry_of(types).contains_key(id) <==> (exists|j: int|
            0 <= j < types.len() && (#[trigger] types[j].id) == id),
        forall|j: int|
            (0 <= j < types.len() && (#[trigger] types[j].id) == id && (forall|k: int|
                j < k < types.len() ==> types[k].id != id)) ==> registry_of(types)[id]
                == types[j].size,
    decreases types.len(),
{
    if types.len() == 0 {
        assert(!registry_of(types).contains_key(id));
    } else {
        let prefix = types.drop_last();
        let last = types.last();
        let n = types.len() as int;
        lemma_registry_last_wins(prefix, id);
        assert(registry_of(types) == registry_of(prefix).insert(last.id, last.size));
        if id == last.id {
            assert(types[n - 1].id == id);
        } else {
            if registry_of(types).contains_key(id) {
                let j = choose|j: int| 0 <= j < prefix.len() && (#[trigger] prefix[j].id) == id;
                assert(types[j].id == id);
            }
            if exists|j: int| 0 <= j < types.len() && (#[trigger] types[j].id) == id {
                let j = choose|j: int| 0 <= j < types.len() && (#[trigger] types[j].id) == id;
                assert(j < n - 1);
                assert(prefix[j].id == id);
            }
        }
        assert forall|j: int|
            (0 <= j < types.len() && (#[trigger] types[j].id) == id && (forall|k: int|
                j < k < types.len() ==> types[k].id != id)) implies registry_of(types)[id]
            == types[j].size by {
            if j == n - 1 {
                assert(registry_of(types)[id] == last.size);
            } else {
                assert(types[n - 1].id != id);
                assert(id != last.id);
                assert(prefix[j].id == id);
                assert forall|k: int| j < k < prefix.len() implies prefix[k].id != id by {
                    assert(prefix[k] == types[k]);
                }
                assert(registry_of(prefix)[id] == prefix[j].size);
            }
        }
    }
}

/// Bytes found at an offset split over a concatenation.
proof fn lemma_bytes_at_split(s: Seq<u8>, i: int, a: Seq<u8>, b: Seq<u8>)
    requires
        i >= 0,
        spec_tag_at(s, i, a + b),
    ensures
        spec_tag_at(s, i, a),
        spec_tag_at(s, i + a.len(), b),
{
    assert forall|k: int| 0 <= k < a.len() implies s[i + k] == a[k] by {
        assert((a + b)[k] == a[k]);
    }
    assert forall|k: int| 0 <= k < b.len() implies s[i + a.len() + k] == b[k] by {
        assert((a + b)[a.len() + k] == b[k]);
        assert(s[i + (a.len() + k)] == (a + b)[a.len() + k]);
    }
}

/// Bytes found at an offset, as a subrange.
proof fn lemma_bytes_at_subrange(s: Seq<u8>, i: int, b: Seq<u8>)
    requires
        i >= 0,
        spec_tag_at(s, i, b),
    ensures
        s.subrange(i, i + b.len()) == b,
{
    assert(s.subrange(i, i + b.len()) =~= b);
}

/// A big-endian 16-bit field reads back the value it encodes.
proof fn lemma_be16_of_encode(s: Seq<u8>, i: int, v: u16)
    requires
        i >= 0,
        spec_tag_at(s, i, encode_u16(v)),
    ensures
        be16_at(s, i) == v,
{
    assert(s[i] == encode_u16(v)[0]);
    assert(s[i + 1] == encode_u16(v)[1]);
    assert((((v >> 8) as u8) as u16) << 8 | ((v as u8) as u16) == v) by (bit_vector);
}

/// A big-endian 32-bit field reads back the value it encodes.
proof fn lemma_be32_of_encode(s: Seq<u8>, i: int, v: u32)
    requires
        i >= 0,
        spec_tag_at(s, i, encode_u32(v)),
    ensures
        be32_at(s, i) == v,
{
    assert(s[i] == encode_u32(v)[0]);
    assert(s[i + 1] == encode_u32(v)[1]);
    assert(s[i + 2] == encode_u32(v)[2]);
    assert(s[i + 3] == encode_u32(v)[3]);
    assert((((v >> 24) as u8) as u32) << 24 | (((v >> 16) as u8) as u32) << 16 | (((v
        >> 8) as u8) as u32) << 8 | ((v as u8) as u32) == v) by (bit_vector);
}

/// A big-endian 64-bit field reads back the value it encodes.
proof fn lemma_be64_of_encode(s: Seq<u8>, i: int, v: u64)
    requires
        i >= 0,
        spec_tag_at(s, i, encode_u64(v)),
    ensures
        be64_at(s, i) == v,
{
    assert(s[i] == encode_u64(v)[0]);
    assert(s[i + 1] == encode_u64(v)[1]);
    assert(s[i + 2] == encode_u64(v)[2]);
    assert(s[i + 3] == encode_u64(v)[3]);
    assert(s[i + 4] == encode_u64(v)[4]);
    assert(s[i + 5] == encode_u64(v)[5]);
    assert(s[i + 6] == encode_u64(v)[6]);
    assert(s[i + 7] == encode_u64(v)[7]);
    assert((((v >> 56) as u8) as u64) << 56 | (((v >> 48) as u8) as u64) << 48 | (((v
        >> 40) as u8) as u64) << 40 | (((v >> 32) as u8) as u64) << 32 | (((v >> 24) as u8) as u64)
        << 24 | (((v >> 16) as u8) as u64) << 16 | (((v >> 8) as u8) as u64) << 8 | ((
    v as u8) as u64) == v) by (bit_vector);
}

/// A type record decodes back from its encoding.
proof fn lemma_parse_event_type_of_encode(s: Seq<u8>, i: int, t: SpecEventType)
    requires
        i >= 0,
        wf_event_type(t),
        spec_tag_at(s, i, encode_event_type(t)),
    ensures
        spec_parse_event_type(s, i) == Ok::<_, DecodeError>(
            (t, i + encode_event_type(t).len()),
        ),
{
    let e1 = type_begin_tag();
    let e2 = encode_u16(t.id);
    let e3 = encode_size(t.size);
    let e4 = encode_u32(t.description.len() as u32);
    let e5 = t.description;
    let e6 = encode_u32(t.extra_info.len() as u32);
    let e7 = t.extra_info;
    let e8 = type_end_tag();
    let dl = t.description.len() as int;
    let el = t.extra_info.len() as int;
    assert(e3.len() == 2);
    lemma_bytes_at_split(s, i, e1 + e2 + e3 + e4 + e5 + e6 + e7, e8);
    lemma_bytes_at_split(s, i, e1 + e2 + e3 + e4 + e5 + e6, e7);
    lemma_bytes_at_split(s, i, e1 + e2 + e3 + e4 + e5, e6);
    lemma_bytes_at_split(s, i, e1 + e2 + e3 + e4, e5);
    lemma_bytes_at_split(s, i, e1 + e2 + e3, e4);
    lemma_bytes_at_split(s, i, e1 + e2, e3);
    lemma_bytes_at_split(s, i, e1, e2);
    assert(spec_tag_at(s, i, type_begin_tag()));
    lemma_be16_of_encode(s, i + 4, t.id);
    match t.size {
        EventSize::Constant(width) => {
            lemma_be16_of_encode(s, i + 6, width);
            assert(spec_decode_size(be16_at(s, i + 6)) == t.size);
        },
        EventSize::Variable => {
            assert(s[i + 6] == 255);
            assert(s[i + 7] == 255);
            assert((255u16) << 8 | (255u16) == 0xFFFFu16) by (bit_vector);
            assert(spec_decode_size(be16_at(s, i + 6)) == t.size);
        },
    }
    lemma_be32_of_encode(s, i + 8, t.description.len() as u32);
    lemma_bytes_at_subrange(s, i + 12, t.description);
    lemma_be32_of_encode(s, i + 12 + dl, t.extra_info.len() as u32);
    lemma_bytes_at_subrange(s, i + 16 + dl, t.extra_info);
    assert(spec_tag_at(s, i + 16 + dl + el, type_end_tag()));
    assert(encode_event_type(t).len() == 20 + dl + el);
    match spec_parse_event_type(s, i) {
        Ok((st, sp)) => {
            assert(st =~= t);
            assert(sp == i + 20 + dl + el);
        },
        Err(_e) => {
            assert(false);
        },
    }
}

/// A type-record repetition decodes back from its encoding, provided the
/// record-begin tag does not reappear right after it.
proof fn lemma_parse_type_list_of_encode(s: Seq<u8>, i: int, ts: Seq<SpecEventType>)
    requires
        i >= 0,
        forall|j: int| 0 <= j < ts.len() ==> wf_event_type(#[trigger] ts[j]),
        spec_tag_at(s, i, encode_type_list(ts)),
        !spec_tag_at(s, i + encode_type_list(ts).len(), type_begin_tag()),
    ensures
        spec_parse_type_list(s, i) == Ok::<_, DecodeError>(
            (ts, i + encode_type_list(ts).len()),
        ),
    decreases ts.len(),
{
    if ts.len() == 0 {
        assert(encode_type_list(ts).len() == 0);
        assert(Seq::<SpecEventType>::empty() =~= ts);
    } else {
        let t0 = ts.first();
        let rest = ts.drop_first();
        let enc0 = encode_event_type(t0);
        let encr = encode_type_list(rest);
        assert(encode_type_list(ts) == enc0 + encr);
        lemma_bytes_at_split(s, i, enc0, encr);
        assert(wf_event_type(ts[0]));
        lemma_parse_event_type_of_encode(s, i, t0);
        let j = i + enc0.len();
        assert(enc0.len() == 20 + t0.description.len() + t0.extra_info.len());
        assert forall|j2: int| 0 <= j2 < rest.len() implies wf_event_type(#[trigger] rest[j2]) by {
            assert(rest[j2] == ts[j2 + 1]);
        }
        lemma_parse_type_list_of_encode(s, j, rest);
        assert(seq![t0] + rest =~= ts);
    }
}

/// An event record decodes back from its encoding, under a registry that
/// declares its type.
proof fn lemma_parse_event_of_encode(s: Seq<u8>, i: int, e: SpecEvent, sizes: Map<u16, EventSize>)
    requires
        i >= 0,
        wf_event(e, sizes),
        spec_tag_at(s, i, encode_event(e, sizes[e.ty])),
    ensures
        spec_parse_event(s, i, sizes) == Ok::<_, DecodeError>(
            (e, i + encode_event(e, sizes[e.ty]).len()),
        ),
{
    match sizes[e.ty] {
        EventSize::Constant(width) => {
            lemma_bytes_at_split(s, i, encode_u16(e.ty) + encode_u64(e.time), e.data);
            lemma_bytes_at_split(s, i, encode_u16(e.ty), encode_u64(e.time));
            lemma_be16_of_encode(s, i, e.ty);
            lemma_be64_of_encode(s, i + 2, e.time);
            lemma_bytes_at_subrange(s, i + 10, e.data);
            match spec_parse_event(s, i, sizes) {
                Ok((sev, sp)) => {
                    assert(sev =~= e);
                    assert(sp == i + 10 + width);
                },
                Err(_e) => {
                    assert(false);
                },
            }
        },
        EventSize::Variable => {
            let encl = encode_u16(e.data.len() as u16);
            lemma_bytes_at_split(s, i, encode_u16(e.ty) + encode_u64(e.time) + encl, e.data);
            lemma_bytes_at_split(s, i, encode_u16(e.ty) + encode_u64(e.time), encl);
            lemma_bytes_at_split(s, i, encode_u16(e.ty), encode_u64(e.time));
            lemma_be16_of_encode(s, i, e.ty);
            lemma_be64_of_encode(s, i + 2, e.time);
            lemma_be16_of_encode(s, i + 10, e.data.len() as u16);
            lemma_bytes_at_subrange(s, i + 12, e.data);
            match spec_parse_event(s, i, sizes) {
                Ok((sev, sp)) => {
                    assert(sev =~= e);
                    assert(sp == i + 12 + e.data.len());
                },
                Err(_e) => {
                    assert(false);
                },
            }
        },
    }
}

/// An event-record repetition decodes back from its encoding, provided the
/// body's end marker follows it.
proof fn lemma_parse_event_list_of_encode(
    s: Seq<u8>,
    i: int,
    es: Seq<SpecEvent>,
    sizes: Map<u16, EventSize>,
)
    requires
        i >= 0,
        forall|j: int| 0 <= j < es.len() ==> wf_event(#[trigger] es[j], sizes),
        spec_tag_at(s, i, encode_event_list(es, sizes)),
        spec_tag_at(s, i + encode_event_list(es, sizes).len(), data_end_tag()),
    ensures
        spec_parse_event_list(s, i, sizes) == Ok::<_, DecodeError>(
            (es, i + encode_event_list(es, sizes).len()),
        ),
    decreases es.len(),
{
    if es.len() == 0 {
        assert(encode_event_list(es, sizes).len() == 0);
        assert(Seq::<SpecEvent>::empty() =~= es);
    } else {
        let e0 = es.first();
        let rest = es.drop_first();
        let enc0 = encode_event(e0, sizes[e0.ty]);
        let encr = encode_event_list(rest, sizes);
        assert(encode_event_list(es, sizes) == enc0 + encr);
        lemma_bytes_at_split(s, i, enc0, encr);
        assert(wf_event(es[0], sizes));
        // The record does not begin with the end marker: its first two bytes
        // encode a type id other than 0xFFFF.
        let ty = e0.ty;
        match sizes[e0.ty] {
            EventSize::Constant(_w) => {
                lemma_bytes_at_split(s, i, encode_u16(e0.ty) + encode_u64(e0.time), e0.data);
                lemma_bytes_at_split(s, i, encode_u16(e0.ty), encode_u64(e0.time));
            },
            EventSize::Variable => {
                lemma_bytes_at_split(
                    s,
                    i,
                    encode_u16(e0.ty) + encode_u64(e0.time) + encode_u16(e0.data.len() as u16),
                    e0.data,
                );
                lemma_bytes_at_split(s, i, encode_u16(e0.ty) + encode_u64(e0.time), encode_u16(
                    e0.data.len() as u16,
                ));
                lemma_bytes_at_split(s, i, encode_u16(e0.ty), encode_u64(e0.time));
            },
        }
        assert(s[i] == encode_u16(ty)[0]);
        assert(s[i + 1] == encode_u16(ty)[1]);
        assert(((ty >> 8) as u8 == 255 && ty as u8 == 255) ==> ty == 0xFFFFu16) by (bit_vector);
        assert(!spec_tag_at(s, i, data_end_tag())) by {
            if spec_tag_at(s, i, data_end_tag()) {
                assert(s[i] == data_end_tag()[0]);
                assert(s[i + 1] == data_end_tag()[1]);
            }
        }
        lemma_parse_event_of_encode(s, i, e0, sizes);
        let j = i + enc0.len();
        assert(enc0.len() >= 10);
        assert forall|j2: int| 0 <= j2 < rest.len() implies wf_event(#[trigger] rest[j2], sizes) by {
            assert(rest[j2] == es[j2 + 1]);
        }
        lemma_parse_event_list_of_encode(s, j, rest, sizes);
        assert(seq![e0] + rest =~= es);
    }
}

/// Round trip: encoding any well-formed `(types, events)` value and decoding
/// the result — with any trailing bytes appended after the body's end marker
/// — yields exactly that value. In particular trailing bytes are ignored and
/// never cause a decode failure.
#[verifier::rlimit(50)]
pub proof fn lemma_round_trip(
    types: Seq<SpecEventType>,
    events: Seq<SpecEvent>,
    trailing: Seq<u8>,
)
    requires
        wf_eventlog(types, events),
    ensures
        spec_parse_eventlog(encode_eventlog(types, events) + trailing) == Ok::<_, DecodeError>(
            (types, events),
        ),
{
    let sizes = registry_of(types);
    let p1 = header_begin_tag();
    let p2 = encode_type_list(types);
    let p3 = header_end_tag();
    let p4 = data_begin_tag();
    let p5 = encode_event_list(events, sizes);
    let p6 = data_end_tag();
    let enc = p1 + p2 + p3 + p4 + p5 + p6;
    assert(encode_eventlog(types, events) == enc);
    let s = enc + trailing;
    assert(spec_tag_at(s, 0, enc)) by {
        assert forall|k: int| 0 <= k < enc.len() implies s[k] == enc[k] by {
            assert((enc + trailing)[k] == enc[k]);
            assert(s[0 + k] == s[k]);
        }
    }
    lemma_bytes_at_split(s, 0, p1 + p2 + p3 + p4 + p5, p6);
    lemma_bytes_at_split(s, 0, p1 + p2 + p3 + p4, p5);
    lemma_bytes_at_split(s, 0, p1 + p2 + p3, p4);
    lemma_bytes_at_split(s, 0, p1 + p2, p3);
    lemma_bytes_at_split(s, 0, p1, p2);
    let l2 = p2.len() as int;
    // The type repetition stops at the header end tag, which is not the
    // record-begin tag.
    assert(!spec_tag_at(s, 4 + l2, type_begin_tag())) by {
        if spec_tag_at(s, 4 + l2, type_begin_tag()) {
            assert(s[4 + l2] == type_begin_tag()[0]);
            assert(s[4 + l2] == header_end_tag()[0]);
        }
    }
    lemma_parse_type_list_of_encode(s, 4, types);
    lemma_parse_event_list_of_encode(s, 12 + l2, events, sizes);
    assert(spec_parse_eventlog(s) == Ok::<_, DecodeError>((types, events)));
}

/// A decoded type record is well-formed: its constant width, if any, fits the
/// non-negative half of the size field, and its blobs fit their length
/// prefixes.
proof fn lemma_parse_event_type_wf(s: Seq<u8>, i: int)
    requires
        i >= 0,
    ensures
        (spec_parse_event_type(s, i) matches Ok(r) ==> wf_event_type(r.0)),
{
    match spec_parse_event_type(s, i) {
        Err(_e) => {
        },
        Ok((t, _p)) => {
            assert(t.size == spec_decode_size(be16_at(s, i + 6)));
            let dlen = be32_at(s, i + 8) as int;
            assert(t.description == s.subrange(i + 12, i + 12 + dlen));
            assert(t.description.len() == dlen);
            let elen = be32_at(s, i + 12 + dlen) as int;
            assert(t.extra_info == s.subrange(i + 16 + dlen, i + 16 + dlen + elen));
            assert(t.extra_info.len() == elen);
        },
    }
}

/// Every type record of a decoded dictionary is well-formed.
proof fn lemma_parse_type_list_wf(s: Seq<u8>, i: int)
    requires
        i >= 0,
    ensures
        (spec_parse_type_list(s, i) matches Ok(r) ==> (forall|j: int|
            0 <= j < r.0.len() ==> wf_event_type(#[trigger] r.0[j])) && r.1 >= i),
    decreases s.len() - i,
{
    if spec_tag_at(s, i, type_begin_tag()) {
        match spec_parse_event_type(s, i) {
            Err(_e) => {
            },
            Ok((t, p)) => {
                lemma_parse_event_type_wf(s, i);
                if i < p <= s.len() {
                    lemma_parse_type_list_wf(s, p);
                    match spec_parse_type_list(s, p) {
                        Err(_e) => {
                        },
                        Ok((rest, _k)) => {
                            assert forall|j: int|
                                0 <= j < (seq![t] + rest).len() implies wf_event_type(
                                #[trigger] (seq![t] + rest)[j],
                            ) by {
                                if j == 0 {
                                    assert((seq![t] + rest)[0] == t);
                                } else {
                                    assert((seq![t] + rest)[j] == rest[j - 1]);
                                }
                            }
                        },
                    }
                }
            },
        }
    }
}

/// A decoded event record is well-formed under the registry it was decoded
/// with, provided its first two bytes are not the body's end marker.
proof fn lemma_parse_event_wf(s: Seq<u8>, i: int, sizes: Map<u16, EventSize>)
    requires
        i >= 0,
        !spec_tag_at(s, i, data_end_tag()),
    ensures
        (spec_parse_event(s, i, sizes) matches Ok(r) ==> wf_event(r.0, sizes)),
{
    match spec_parse_event(s, i, sizes) {
        Err(_e) => {
        },
        Ok((ev, _p)) => {
            let b0 = s[i];
            let b1 = s[i + 1];
            assert(b0 != 255 || b1 != 255) by {
                if b0 == 255 && b1 == 255 {
                    assert(spec_tag_at(s, i, data_end_tag())) by {
                        assert forall|k: int| 0 <= k < 2 implies s[i + k] == data_end_tag()[k] by {
                            if k == 0 {
                            } else {
                                assert(k == 1);
                            }
                        }
                    }
                }
            }
            assert(((b0 as u16) << 8 | (b1 as u16)) == 0xFFFFu16 ==> b0 == 255 && b1 == 255)
                by (bit_vector);
            assert(ev.ty == ((b0 as u16) << 8 | (b1 as u16)));
            assert(ev.ty != 0xFFFF);
            assert(sizes.contains_key(ev.ty));
            match sizes[ev.ty] {
                EventSize::Constant(width) => {
                    assert(ev.data == s.subrange(i + 10, i + 10 + width));
                    assert(ev.data.len() == width);
                },
                EventSize::Variable => {
                    let dlen = be16_at(s, i + 10) as int;
                    assert(ev.data == s.subrange(i + 12, i + 12 + dlen));
                    assert(ev.data.len() == dlen);
                    assert(dlen <= u16::MAX);
                },
            }
        },
    }
}

/// Every event record of a decoded stream is well-formed under the registry
/// the stream was decoded with.
proof fn lemma_parse_event_list_wf(s: Seq<u8>, i: int, sizes: Map<u16, EventSize>)
    requires
        i >= 0,
    ensures
        (spec_parse_event_list(s, i, sizes) matches Ok(r) ==> forall|j: int|
            0 <= j < r.0.len() ==> wf_event(#[trigger] r.0[j], sizes)),
    decreases s.len() - i,
{
    if !spec_tag_at(s, i, data_end_tag()) {
        match spec_parse_event(s, i, sizes) {
            Err(_e) => {
            },
            Ok((ev, p)) => {
                lemma_parse_event_wf(s, i, sizes);
                if i < p <= s.len() {
                    lemma_parse_event_list_wf(s, p, sizes);
                    match spec_parse_event_list(s, p, sizes) {
                        Err(_e) => {
                        },
                        Ok((rest, _k)) => {
                            assert forall|j: int|
                                0 <= j < (seq![ev] + rest).len() implies wf_event(
                                #[trigger] (seq![ev] + rest)[j],
                                sizes,
                            ) by {
                                if j == 0 {
                                    assert((seq![ev] + rest)[0] == ev);
                                } else {
                                    assert((seq![ev] + rest)[j] == rest[j - 1]);
                                }
                            }
                        },
                    }
                }
            },
        }
    }
}

/// Whatever a successful decode returns is well-formed, so it can be encoded
/// again, and by `lemma_round_trip` that encoding decodes back to the same
/// value: decoding, re-encoding and decoding again loses nothing.
pub proof fn lemma_parse_well_formed(s: Seq<u8>)
    ensures
        (spec_parse_eventlog(s) matches Ok(r) ==> wf_eventlog(r.0, r.1)),
{
    match spec_parse_eventlog(s) {
        Err(_e) => {
        },
        Ok((types, events)) => {
            match spec_parse_type_list(s, 4) {
                Err(_e) => {
                },
                Ok((ts, p)) => {
                    lemma_parse_type_list_wf(s, 4);
                    lemma_parse_event_list_wf(s, p + 8, registry_of(ts));
                },
            }
        },
    }
}

/// Decoding, re-encoding the decoded value, and decoding again loses
/// nothing: both decodes yield the same `(types, events)` value.
pub proof fn lemma_decode_encode_decode(s: Seq<u8>)
    ensures
        (spec_parse_eventlog(s) matches Ok(r) ==> spec_parse_eventlog(encode_eventlog(r.0, r.1))
            == spec_parse_eventlog(s)),
{
    match spec_parse_eventlog(s) {
        Err(_e) => {
        },
        Ok((types, events)) => {
            lemma_parse_well_formed(s);
            lemma_round_trip(types, events, Seq::empty());
            assert(encode_eventlog(types, events) + Seq::<u8>::empty() =~= encode_eventlog(
                types,
                events,
            ));
        },
    }
}

} // verus!
