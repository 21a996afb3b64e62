//! Mathematical model of the eventlog grammar.
//!
//! The spec functions in this module define, byte for byte, what it means to
//! decode an eventlog: `spec_parse_eventlog` is the reference decoder over a
//! `Seq<u8>`, and `spec_encode_eventlog` is the reference encoder for
//! well-formed values. The executable decoder in `parser` is proved to return
//! exactly what `spec_parse_eventlog` says, errors included, and the laws in
//! `laws` relate decoding and encoding.
//!
//! Positions are byte offsets from the start of the buffer. A failed decode
//! reports the offset at which the failed tag comparison or the failed read
//! began.

use vstd::prelude::*;

verus! {

/// Payload size policy of an event type: every event of the type carries
/// either exactly `width` payload bytes (`Constant(width)`) or a 16-bit
/// length-prefixed payload (`Variable`).
#[derive(Debug, Clone, Copy, PartialEq, Eq, Structural)]
pub enum EventSize {
    Constant(u16),
    Variable,
}

/// Why a decode failed, and the byte offset at which it failed.
#[derive(Debug, Clone, Copy, PartialEq, Eq, Structural)]
pub enum DecodeError {
    /// An expected literal (a section or record delimiter) was not found at
    /// `pos`; reported also when fewer bytes than the literal's length remain.
    TagMismatch { pos: usize },
    /// Fewer bytes remained at `pos` than a fixed-width or length-prefixed
    /// field required.
    Truncated { pos: usize },
    /// The event record starting at `pos` referenced type id `ty`, which the
    /// type dictionary did not declare, so its payload framing is unknown.
    UnknownType { pos: usize, ty: u16 },
}

/// Model of one type-dictionary entry.
#[verifier::ext_equal]
pub ghost struct SpecEventType {
    pub id: u16,
    pub size: EventSize,
    pub description: Seq<u8>,
    pub extra_info: Seq<u8>,
}

/// Model of one event record.
#[verifier::ext_equal]
pub ghost struct SpecEvent {
    pub ty: u16,
    pub time: u64,
    pub data: Seq<u8>,
}

// Section and record delimiters of the on-disk format.

pub open spec fn header_begin_tag() -> Seq<u8> {
    seq![104u8, 100u8, 114u8, 98u8]  // "hdrb"
}

pub open spec fn header_end_tag() -> Seq<u8> {
    seq![104u8, 100u8, 114u8, 101u8]  // "hdre"
}

pub open spec fn type_begin_tag() -> Seq<u8> {
    seq![101u8, 116u8, 98u8, 0u8]  // "etb\0"
}

pub open spec fn type_end_tag() -> Seq<u8> {
    seq![101u8, 116u8, 101u8, 0u8]  // "ete\0"
}

pub open spec fn data_begin_tag() -> Seq<u8> {
    seq![100u8, 97u8, 116u8, 98u8]  // "datb"
}

pub open spec fn data_end_tag() -> Seq<u8> {
    seq![255u8, 255u8]
}

/// The literal `t` occurs in `s` at offset `i`.
pub open spec fn spec_tag_at(s: Seq<u8>, i: int, t: Seq<u8>) -> bool {
    &&& i + t.len() <= s.len()
    &&& forall|k: int| 0 <= k < t.len() ==> s[i + k] == t[k]
}

// Big-endian integer fields, read at offset `i`; meaningful only when the
// needed bytes are in bounds.

pub open spec fn be16_at(s: Seq<u8>, i: int) -> u16 {
    (s[i] as u16) << 8 | (s[i + 1] as u16)
}

pub open spec fn be32_at(s: Seq<u8>, i: int) -> u32 {
    (s[i] as u32) << 24 | (s[i + 1] as u32) << 16 | (s[i + 2] as u32) << 8 | (s[i + 3] as u32)
}

pub open spec fn be64_at(s: Seq<u8>, i: int) -> u64 {
    (s[i] as u64) << 56 | (s[i + 1] as u64) << 48 | (s[i + 2] as u64) << 40 | (s[i + 3] as u64)
        << 32 | (s[i + 4] as u64) << 24 | (s[i + 5] as u64) << 16 | (s[i + 6] as u64) << 8 | (s[i
        + 7] as u64)
}

/// Size policy encoded in the raw 16-bit size field: values that are
/// non-negative as a signed 16-bit integer (i.e. below 0x8000 unsigned)
/// declare `Constant`, negative ones declare `Variable`.
pub open spec fn spec_decode_size(raw: u16) -> EventSize {
    if raw < 0x8000 {
        EventSize::Constant(raw)
    } else {
        EventSize::Variable
    }
}

/// Decode one type-dictionary record at offset `i`.
pub open spec fn spec_parse_event_type(s: Seq<u8>, i: int) -> Result<
    (SpecEventType, int),
    DecodeError,
> {
    if !spec_tag_at(s, i, type_begin_tag()) {
        Err(DecodeError::TagMismatch { pos: i as usize })
    } else {
        let p_id = i + 4;
        if s.len() < p_id + 2 {
            Err(DecodeError::Truncated { pos: p_id as usize })
        } else {
            let id = be16_at(s, p_id);
            let p_size = p_id + 2;
            if s.len() < p_size + 2 {
                Err(DecodeError::Truncated { pos: p_size as usize })
            } else {
                let size = spec_decode_size(be16_at(s, p_size));
                let p_dlen = p_size + 2;
                if s.len() < p_dlen + 4 {
                    Err(DecodeError::Truncated { pos: p_dlen as usize })
                } else {
                    let dlen = be32_at(s, p_dlen) as int;
                    let p_desc = p_dlen + 4;
                    if s.len() < p_desc + dlen {
                        Err(DecodeError::Truncated { pos: p_desc as usize })
                    } else {
                        let description = s.subrange(p_desc, p_desc + dlen);
                        let p_elen = p_desc + dlen;
                        if s.len() < p_elen + 4 {
                            Err(DecodeError::Truncated { pos: p_elen as usize })
                        } else {
                            let elen = be32_at(s, p_elen) as int;
                            let p_extra = p_elen + 4;
                            if s.len() < p_extra + elen {
                                Err(DecodeError::Truncated { pos: p_extra as usize })
                            } else {
                                let extra_info = s.subrange(p_extra, p_extra + elen);
                                let p_end = p_extra + elen;
                                if !spec_tag_at(s, p_end, type_end_tag()) {
                                    Err(DecodeError::TagMismatch { pos: p_end as usize })
                                } else {
                                    Ok(
                                        (
                                            (SpecEventType { id, size, description, extra_info }),
                                            p_end + 4,
                                        ),
                                    )
                                }
                            }
                        }
                    }
                }
            }
        }
    }
}

/// Decode the zero-or-more repetition of type records at offset `i`. The
/// repetition ends, without error, at the first offset where the record-begin
/// tag does not match; a record that begins but fails to decode aborts the
/// whole repetition with its error.
pub open spec fn spec_parse_type_list(s: Seq<u8>, i: int) -> Result<
    (Seq<SpecEventType>, int),
    DecodeError,
>
    decreases s.len() - i,
{
    if !spec_tag_at(s, i, type_begin_tag()) {
        Ok((Seq::empty(), i))
    } else {
        match spec_parse_event_type(s, i) {
            Err(e) => Err(e),
            // A record that decodes always advances within bounds; the guard
            // only justifies the recursion's termination.
            Ok((t, j)) => if i < j <= s.len() {
                match spec_parse_type_list(s, j) {
                    Err(e) => Err(e),
                    Ok((rest, k)) => Ok((seq![t] + rest, k)),
                }
            } else {
                arbitrary()
            },
        }
    }
}

/// Decode the header section: the type dictionary between its begin and end
/// tags.
pub open spec fn spec_parse_header(s: Seq<u8>, i: int) -> Result<
    (Seq<SpecEventType>, int),
    DecodeError,
> {
    if !spec_tag_at(s, i, header_begin_tag()) {
        Err(DecodeError::TagMismatch { pos: i as usize })
    } else {
        match spec_parse_type_list(s, i + 4) {
            Err(e) => Err(e),
            Ok((types, j)) => if !spec_tag_at(s, j, header_end_tag()) {
                Err(DecodeError::TagMismatch { pos: j as usize })
            } else {
                Ok((types, j + 4))
            },
        }
    }
}

/// The size registry derived from a decoded dictionary: type id to size
/// policy. When the same id is declared more than once, the later declaration
/// wins (last-write-wins), as the registry is a left-to-right fold of the
/// dictionary.
pub open spec fn registry_of(types: Seq<SpecEventType>) -> Map<u16, EventSize>
    decreases types.len(),
{
    if types.len() == 0 {
        Map::empty()
    } else {
        registry_of(types.drop_last()).insert(types.last().id, types.last().size)
    }
}

/// Decode one event record at offset `i`, framing its payload by the size
/// policy `sizes` assigns to its type id.
pub open spec fn spec_parse_event(s: Seq<u8>, i: int, sizes: Map<u16, EventSize>) -> Result<
    (SpecEvent, int),
    DecodeError,
> {
    if s.len() < i + 2 {
        Err(DecodeError::Truncated { pos: i as usize })
    } else {
        let ty = be16_at(s, i);
        let p_time = i + 2;
        if s.len() < p_time + 8 {
            Err(DecodeError::Truncated { pos: p_time as usize })
        } else {
            let time = be64_at(s, p_time);
            let p_data = p_time + 8;
            if !sizes.contains_key(ty) {
                Err(DecodeError::UnknownType { pos: i as usize, ty })
            } else {
                match sizes[ty] {
                    EventSize::Constant(width) => if s.len() < p_data + width {
                        Err(DecodeError::Truncated { pos: p_data as usize })
                    } else {
                        let data = s.subrange(p_data, p_data + width);
                        Ok(((SpecEvent { ty, time, data }), p_data + width))
                    },
                    EventSize::Variable => if s.len() < p_data + 2 {
                        Err(DecodeError::Truncated { pos: p_data as usize })
                    } else {
                        let dlen = be16_at(s, p_data) as int;
                        let p_bytes = p_data + 2;
                        if s.len() < p_bytes + dlen {
                            Err(DecodeError::Truncated { pos: p_bytes as usize })
                        } else {
                            let data = s.subrange(p_bytes, p_bytes + dlen);
                            Ok(((SpecEvent { ty, time, data }), p_bytes + dlen))
                        }
                    },
                }
            }
        }
    }
}

/// Decode the zero-or-more repetition of event records at offset `i`. The
/// repetition ends, without error, at the first offset where the body's end
/// marker is found; a record that fails to decode (truncated fields, or a type
/// id the dictionary did not declare) aborts the whole repetition with its
/// error.
pub open spec fn spec_parse_event_list(s: Seq<u8>, i: int, sizes: Map<u16, EventSize>) -> Result<
    (Seq<SpecEvent>, int),
    DecodeError,
>
    decreases s.len() - i,
{
    if spec_tag_at(s, i, data_end_tag()) {
        Ok((Seq::empty(), i))
    } else {
        match spec_parse_event(s, i, sizes) {
            Err(e) => Err(e),
            // A record that decodes always advances within bounds; the guard
            // only justifies the recursion's termination.
            Ok((ev, j)) => if i < j <= s.len() {
                match spec_parse_event_list(s, j, sizes) {
                    Err(e) => Err(e),
                    Ok((rest, k)) => Ok((seq![ev] + rest, k)),
                }
            } else {
                arbitrary()
            },
        }
    }
}

/// Decode the body section: the event stream between its begin tag and its
/// end marker. The repetition succeeds only at an offset where the end marker
/// stands, so consuming two more bytes consumes exactly that marker.
pub open spec fn spec_parse_body(s: Seq<u8>, i: int, sizes: Map<u16, EventSize>) -> Result<
    (Seq<SpecEvent>, int),
    DecodeError,
> {
    if !spec_tag_at(s, i, data_begin_tag()) {
        Err(DecodeError::TagMismatch { pos: i as usize })
    } else {
        match spec_parse_event_list(s, i + 4, sizes) {
            Err(e) => Err(e),
            Ok((events, j)) => Ok((events, j + 2)),
        }
    }
}

/// Decode a whole eventlog: the type dictionary, then the event stream framed
/// by the dictionary's size registry. Bytes after the body's end marker are
/// ignored.
pub open spec fn spec_parse_eventlog(s: Seq<u8>) -> Result<
    (Seq<SpecEventType>, Seq<SpecEvent>),
    DecodeError,
> {
    match spec_parse_header(s, 0) {
        Err(e) => Err(e),
        Ok((types, i)) => match spec_parse_body(s, i, registry_of(types)) {
            Err(e) => Err(e),
            Ok((events, _j)) => Ok((types, events)),
        },
    }
}

// The reference encoder, for relating decoding back to bytes. It is defined
// for well-formed values only (see `wf_event_type` and `wf_event`).

pub open spec fn encode_u16(v: u16) -> Seq<u8> {
    seq![(v >> 8) as u8, v as u8]
}

pub open spec fn encode_u32(v: u32) -> Seq<u8> {
    seq![(v >> 24) as u8, (v >> 16) as u8, (v >> 8) as u8, v as u8]
}

pub open spec fn encode_u64(v: u64) -> Seq<u8> {
    seq![
        (v >> 56) as u8,
        (v >> 48) as u8,
        (v >> 40) as u8,
        (v >> 32) as u8,
        (v >> 24) as u8,
        (v >> 16) as u8,
        (v >> 8) as u8,
        v as u8,
    ]
}

/// Encode a size policy into the raw 16-bit size field. `Variable` is written
/// as 0xFFFF (-1 as a signed 16-bit value); any negative value would decode
/// equally.
pub open spec fn encode_size(z: EventSize) -> Seq<u8> {
    match z {
        EventSize::Constant(width) => encode_u16(width),
        EventSize::Variable => seq![255u8, 255u8],
    }
}

pub open spec fn encode_event_type(t: SpecEventType) -> Seq<u8> {
    type_begin_tag() + encode_u16(t.id) + encode_size(t.size) + encode_u32(
        t.description.len() as u32,
    ) + t.description + encode_u32(t.extra_info.len() as u32) + t.extra_info + type_end_tag()
}

pub open spec fn encode_type_list(types: Seq<SpecEventType>) -> Seq<u8>
    decreases types.len(),
{
    if types.len() == 0 {
        Seq::empty()
    } else {
        encode_event_type(types.first()) + encode_type_list(types.drop_first())
    }
}

pub open spec fn encode_event(e: SpecEvent, z: EventSize) -> Seq<u8> {
    match z {
        EventSize::Constant(_width) => encode_u16(e.ty) + encode_u64(e.time) + e.data,
        EventSize::Variable => encode_u16(e.ty) + encode_u64(e.time) + encode_u16(
            e.data.len() as u16,
        ) + e.data,
    }
}

pub open spec fn encode_event_list(events: Seq<SpecEvent>, sizes: Map<u16, EventSize>) -> Seq<u8>
    decreases events.len(),
{
    if events.len() == 0 {
        Seq::empty()
    } else {
        encode_event(events.first(), sizes[events.first().ty]) + encode_event_list(
            events.drop_first(),
            sizes,
        )
    }
}

pub open spec fn encode_eventlog(types: Seq<SpecEventType>, events: Seq<SpecEvent>) -> Seq<u8> {
    header_begin_tag() + encode_type_list(types) + header_end_tag() + data_begin_tag()
        + encode_event_list(events, registry_of(types)) + data_end_tag()
}

/// A type record the grammar can represent: a constant width fits the
/// non-negative half of the signed 16-bit size field, and each blob's length
/// fits its 32-bit length prefix.
pub open spec fn wf_event_type(t: SpecEventType) -> bool {
    &&& match t.size {
        EventSize::Constant(width) => width < 0x8000,
        EventSize::Variable => true,
    }
    &&& t.description.len() <= u32::MAX
    &&& t.extra_info.len() <= u32::MAX
}

/// An event record the grammar can represent under the registry `sizes`: its
/// type is declared, its payload matches the declared framing, and its type id
/// is not the reserved body end marker value 0xFFFF (whose two encoded bytes
/// are the end marker itself).
pub open spec fn wf_event(e: SpecEvent, sizes: Map<u16, EventSize>) -> bool {
    &&& e.ty != 0xFFFF
    &&& sizes.contains_key(e.ty)
    &&& match sizes[e.ty] {
        EventSize::Constant(width) => e.data.len() == width,
        EventSize::Variable => e.data.len() <= u16::MAX,
    }
}

/// A `(types, events)` value the grammar can represent.
pub open spec fn wf_eventlog(types: Seq<SpecEventType>, events: Seq<SpecEvent>) -> bool {
    &&& forall|i: int| 0 <= i < types.len() ==> wf_event_type(#[trigger] types[i])
    &&& forall|i: int|
        0 <= i < events.len() ==> wf_event(#[trigger] events[i], registry_of(types))
}

} // verus!
