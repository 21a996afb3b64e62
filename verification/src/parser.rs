//! Executable eventlog decoder.
//!
//! Each function is proved to return exactly what the corresponding spec
//! function of `grammar` says, success and failure alike.

use crate::grammar::be16_at;
use crate::grammar::be32_at;
use crate::grammar::be64_at;
use crate::grammar::data_end_tag;
use crate::grammar::registry_of;
use crate::grammar::spec_decode_size;
use crate::grammar::spec_parse_body;
use crate::grammar::spec_parse_event;
use crate::grammar::spec_parse_event_list;
use crate::grammar::spec_parse_event_type;
use crate::grammar::spec_parse_eventlog;
use crate::grammar::spec_parse_header;
use crate::grammar::spec_parse_type_list;
use crate::grammar::spec_tag_at;
use crate::grammar::type_begin_tag;
use crate::grammar::DecodeError;
use crate::grammar::EventSize;
use crate::grammar::SpecEvent;
use crate::grammar::SpecEventType;
use std::collections::HashMap;
use vstd::prelude::*;

verus! {

broadcast use vstd::std_specs::hash::group_hash_axioms;

/// The models of a sequence of decoded type records.
pub open spec fn types_view(ts: Seq<EventType>) -> Seq<SpecEventType> {
    ts.map_values(|t: EventType| t@)
}

/// The models of a sequence of decoded event records.
pub open spec fn events_view(es: Seq<Event>) -> Seq<SpecEvent> {
    es.map_values(|e: Event| e@)
}

/// One type-dictionary entry: what kind of event `id` names, how its payload
/// is framed, and its two descriptive byte blobs.
#[derive(Debug, Clone, PartialEq, Eq)]
pub struct EventType {
    pub id: u16,
    pub size: EventSize,
    pub description: Vec<u8>,
    pub extra_info: Vec<u8>,
}

impl View for EventType {
    type V = SpecEventType;

    open spec fn view(&self) -> SpecEventType {
        SpecEventType {
            id: self.id,
            size: self.size,
            description: self.description@,
            extra_info: self.extra_info@,
        }
    }
}

/// One event record: its type id, its timestamp in nanoseconds, and its
/// payload bytes.
#[derive(Debug, Clone, PartialEq, Eq)]
pub struct Event {
    pub ty: u16,
    /// Nanoseconds.
    pub time: u64,
    pub data: Vec<u8>,
}

impl View for Event {
    type V = SpecEvent;

    open spec fn view(&self) -> SpecEvent {
        SpecEvent { ty: self.ty, time: self.time, data: self.data@ }
    }
}

/// Does the 4-byte literal `t0 t1 t2 t3` occur at offset `pos`?
fn tag4_at(input: &[u8], pos: usize, t0: u8, t1: u8, t2: u8, t3: u8) -> (r: bool)
    requires
        pos <= input@.len(),
    ensures
        r == spec_tag_at(input@, pos as int, seq![t0, t1, t2, t3]),
{
    let r = input.len() - pos >= 4 && input[pos] == t0 && input[pos + 1] == t1 && input[pos + 2]
        == t2 && input[pos + 3] == t3;
    proof {
        let t = seq![t0, t1, t2, t3];
        if r {
            assert forall|k: int| 0 <= k < t.len() implies input@[pos + k] == t[k] by {
                if k == 0 {
                } else if k == 1 {
                } else if k == 2 {
                } else {
                    assert(k == 3);
                }
            }
        }
    }
    r
}

/// Does the 2-byte literal `t0 t1` occur at offset `pos`?
fn tag2_at(input: &[u8], pos: usize, t0: u8, t1: u8) -> (r: bool)
    requires
        pos <= input@.len(),
    ensures
        r == spec_tag_at(input@, pos as int, seq![t0, t1]),
{
    let r = input.len() - pos >= 2 && input[pos] == t0 && input[pos + 1] == t1;
    proof {
        let t = seq![t0, t1];
        if r {
            assert forall|k: int| 0 <= k < t.len() implies input@[pos + k] == t[k] by {
                if k == 0 {
                } else {
                    assert(k == 1);
                }
            }
        }
    }
    r
}

/// Read a big-endian 16-bit integer at offset `pos`.
fn read_u16(input: &[u8], pos: usize) -> (r: Result<(u16, usize), DecodeError>)
    requires
        pos <= input@.len(),
    ensures
        match r {
            Ok((v, p)) => input@.len() >= pos + 2 && v == be16_at(input@, pos as int) && p == pos
                + 2,
            Err(e) => input@.len() < pos + 2 && e == (DecodeError::Truncated { pos }),
        },
{
    if input.len() - pos >= 2 {
        let v = (input[pos] as u16) << 8 | (input[pos + 1] as u16);
        Ok((v, pos + 2))
    } else {
        Err(DecodeError::Truncated { pos })
    }
}

/// Read a big-endian 32-bit integer at offset `pos`.
fn read_u32(input: &[u8], pos: usize) -> (r: Result<(u32, usize), DecodeError>)
    requires
        pos <= input@.len(),
    ensures
        match r {
            Ok((v, p)) => input@.len() >= pos + 4 && v == be32_at(input@, pos as int) && p == pos
                + 4,
            Err(e) => input@.len() < pos + 4 && e == (DecodeError::Truncated { pos }),
        },
{
    if input.len() - pos >= 4 {
        let v = (input[pos] as u32) << 24 | (input[pos + 1] as u32) << 16 | (input[pos + 2] as u32)
            << 8 | (input[pos + 3] as u32);
        Ok((v, pos + 4))
    } else {
        Err(DecodeError::Truncated { pos })
    }
}

/// Read a big-endian 64-bit integer at offset `pos`.
fn read_u64(input: &[u8], pos: usize) -> (r: Result<(u64, usize), DecodeError>)
    requires
        pos <= input@.len(),
    ensures
        match r {
            Ok((v, p)) => input@.len() >= pos + 8 && v == be64_at(input@, pos as int) && p == pos
                + 8,
            Err(e) => input@.len() < pos + 8 && e == (DecodeError::Truncated { pos }),
        },
{
    if input.len() - pos >= 8 {
        let v = (input[pos] as u64) << 56 | (input[pos + 1] as u64) << 48 | (input[pos + 2] as u64)
            << 40 | (input[pos + 3] as u64) << 32 | (input[pos + 4] as u64) << 24 | (input[pos
            + 5] as u64) << 16 | (input[pos + 6] as u64) << 8 | (input[pos + 7] as u64);
        Ok((v, pos + 8))
    } else {
        Err(DecodeError::Truncated { pos })
    }
}

/// Copy the `len` bytes starting at offset `pos` into an owned payload blob.
fn read_block(input: &[u8], pos: usize, len: usize) -> (r: Result<(Vec<u8>, usize), DecodeError>)
    requires
        pos <= input@.len(),
    ensures
        match r {
            Ok((b, p)) => input@.len() >= pos + len && b@ == input@.subrange(
                pos as int,
                pos + len,
            ) && p == pos + len,
            Err(e) => input@.len() < pos + len && e == (DecodeError::Truncated { pos }),
        },
{
    if input.len() - pos >= len {
        let b = vstd::slice::slice_to_vec(vstd::slice::slice_subrange(input, pos, pos + len));
        Ok((b, pos + len))
    } else {
        Err(DecodeError::Truncated { pos })
    }
}

/// Decode the raw 16-bit size-policy field at offset `pos`: a value that is
/// non-negative as a signed 16-bit integer declares a constant payload width,
/// a negative one declares variable-length payloads.
fn parse_event_size(input: &[u8], pos: usize) -> (r: Result<(EventSize, usize), DecodeError>)
    requires
        pos <= input@.len(),
    ensures
        match r {
            Ok((z, p)) => input@.len() >= pos + 2 && z == spec_decode_size(
                be16_at(input@, pos as int),
            ) && p == pos + 2,
            Err(e) => input@.len() < pos + 2 && e == (DecodeError::Truncated { pos }),
        },
{
    match read_u16(input, pos) {
        Ok((raw, p)) => if raw < 0x8000 {
            Ok((EventSize::Constant(raw), p))
        } else {
            Ok((EventSize::Variable, p))
        },
        Err(e) => Err(e),
    }
}

/// Decode one type-dictionary record at offset `pos`: begin tag, id, size
/// policy, description blob, extra-info blob, end tag.
fn parse_event_type(input: &[u8], pos: usize) -> (r: Result<(EventType, usize), DecodeError>)
    requires
        pos <= input@.len(),
    ensures
        match (r, spec_parse_event_type(input@, pos as int)) {
            (Ok((t, p)), Ok((st, sp))) => t@ == st && p as int == sp && pos < p <= input@.len(),
            (Err(e), Err(se)) => e == se,
            _ => false,
        },
{
    proof {
        assert(input.len() == input@.len());
    }
    if !tag4_at(input, pos, 101, 116, 98, 0) {  // "etb\0"
        return Err(DecodeError::TagMismatch { pos });
    }
    let (id, p1) = match read_u16(input, pos + 4) {
        Ok(x) => x,
        Err(e) => return Err(e),
    };
    let (size, p2) = match parse_event_size(input, p1) {
        Ok(x) => x,
        Err(e) => return Err(e),
    };
    let (dlen, p3) = match read_u32(input, p2) {
        Ok(x) => x,
        Err(e) => return Err(e),
    };
    let (description, p4) = match read_block(input, p3, dlen as usize) {
        Ok(x) => x,
        Err(e) => return Err(e),
    };
    let (elen, p5) = match read_u32(input, p4) {
        Ok(x) => x,
        Err(e) => return Err(e),
    };
    let (extra_info, p6) = match read_block(input, p5, elen as usize) {
        Ok(x) => x,
        Err(e) => return Err(e),
    };
    if !tag4_at(input, p6, 101, 116, 101, 0) {  // "ete\0"
        return Err(DecodeError::TagMismatch { pos: p6 });
    }
    Ok((EventType { id, size, description, extra_info }, p6 + 4))
}

/// Decode the zero-or-more repetition of type records starting at `start`,
/// stopping cleanly at the first offset where the record-begin tag does not
/// match.
fn parse_type_list(input: &[u8], start: usize) -> (r: Result<(Vec<EventType>, usize), DecodeError>)
    requires
        start <= input@.len(),
    ensures
        match (r, spec_parse_type_list(input@, start as int)) {
            (Ok((ts, p)), Ok((sts, sp))) => types_view(ts@) == sts && p as int == sp && start <= p
                <= input@.len(),
            (Err(e), Err(se)) => e == se,
            _ => false,
        },
{
    let mut types: Vec<EventType> = Vec::new();
    let mut pos = start;
    loop
        invariant
            start <= pos <= input@.len(),
            match spec_parse_type_list(input@, pos as int) {
                Ok((rest, sp)) => spec_parse_type_list(input@, start as int) == Ok::<
                    _,
                    DecodeError,
                >((types_view(types@) + rest, sp)),
                Err(e) => spec_parse_type_list(input@, start as int) == Err::<
                    (Seq<SpecEventType>, int),
                    _,
                >(e),
            },
        ensures
            start <= pos <= input@.len(),
            !spec_tag_at(input@, pos as int, type_begin_tag()),
            spec_parse_type_list(input@, start as int) == Ok::<_, DecodeError>(
                (types_view(types@) + Seq::<SpecEventType>::empty(), pos as int),
            ),
        decreases input@.len() - pos,
    {
        if !tag4_at(input, pos, 101, 116, 98, 0) {  // "etb\0"
            break;
        }
        match parse_event_type(input, pos) {
            Err(e) => {
                return Err(e);
            },
            Ok((t, p2)) => {
                proof {
                    let s = input@;
                    let rec = spec_parse_type_list(s, p2 as int);
                    match rec {
                        Err(e2) => {
                            assert(spec_parse_type_list(s, pos as int) == Err::<
                                (Seq<SpecEventType>, int),
                                _,
                            >(e2));
                        },
                        Ok((rest, k)) => {
                            assert(spec_parse_type_list(s, pos as int) == Ok::<_, DecodeError>(
                                (seq![t@] + rest, k),
                            ));
                            assert(types_view(types@.push(t)) =~= types_view(types@).push(t@));
                            assert(types_view(types@) + (seq![t@] + rest) =~= types_view(
                                types@,
                            ).push(t@) + rest);
                        },
                    }
                }
                types.push(t);
                pos = p2;
            },
        }
    }
    proof {
        assert(types_view(types@) + Seq::<SpecEventType>::empty() =~= types_view(types@));
    }
    Ok((types, pos))
}

/// Decode the header section at offset `pos`: the type dictionary between its
/// begin and end tags.
fn parse_header(input: &[u8], pos: usize) -> (r: Result<(Vec<EventType>, usize), DecodeError>)
    requires
        pos <= input@.len(),
    ensures
        match (r, spec_parse_header(input@, pos as int)) {
            (Ok((ts, p)), Ok((sts, sp))) => types_view(ts@) == sts && p as int == sp && p
                <= input@.len(),
            (Err(e), Err(se)) => e == se,
            _ => false,
        },
{
    proof {
        assert(input.len() == input@.len());
    }
    if !tag4_at(input, pos, 104, 100, 114, 98) {  // "hdrb"
        return Err(DecodeError::TagMismatch { pos });
    }
    let (types, p1) = match parse_type_list(input, pos + 4) {
        Ok(x) => x,
        Err(e) => return Err(e),
    };
    if !tag4_at(input, p1, 104, 100, 114, 101) {  // "hdre"
        return Err(DecodeError::TagMismatch { pos: p1 });
    }
    Ok((types, p1 + 4))
}

/// Build the size registry from the decoded dictionary: type id to size
/// policy, the later declaration winning when an id is declared twice.
fn build_size_registry(types: &Vec<EventType>) -> (r: HashMap<u16, EventSize>)
    ensures
        r@ == registry_of(types_view(types@)),
{
    let mut sizes: HashMap<u16, EventSize> = HashMap::new();
    let mut i: usize = 0;
    while i < types.len()
        invariant
            i <= types@.len(),
            sizes@ == registry_of(types_view(types@).take(i as int)),
        decreases types@.len() - i,
    {
        let t = &types[i];
        sizes.insert(t.id, t.size);
        proof {
            let tv = types_view(types@);
            assert(tv.take(i + 1).drop_last() =~= tv.take(i as int));
            assert(tv.take(i + 1).last() == tv[i as int]);
        }
        i = i + 1;
    }
    proof {
        assert(types_view(types@).take(types@.len() as int) =~= types_view(types@));
    }
    sizes
}

/// Decode one event record at offset `pos`: type id, timestamp, and the
/// payload framed by the size policy that `sizes` assigns to the type id.
fn parse_event(input: &[u8], pos: usize, sizes: &HashMap<u16, EventSize>) -> (r: Result<
    (Event, usize),
    DecodeError,
>)
    requires
        pos <= input@.len(),
    ensures
        match (r, spec_parse_event(input@, pos as int, sizes@)) {
            (Ok((ev, p)), Ok((sev, sp))) => ev@ == sev && p as int == sp && pos < p
                <= input@.len(),
            (Err(e), Err(se)) => e == se,
            _ => false,
        },
{
    let (ty, p1) = match read_u16(input, pos) {
        Ok(x) => x,
        Err(e) => return Err(e),
    };
    let (time, p2) = match read_u64(input, p1) {
        Ok(x) => x,
        Err(e) => return Err(e),
    };
    let z = match sizes.get(&ty) {
        Some(z) => *z,
        None => {
            return Err(DecodeError::UnknownType { pos, ty });
        },
    };
    match z {
        EventSize::Constant(width) => {
            let (data, p3) = match read_block(input, p2, width as usize) {
                Ok(x) => x,
                Err(e) => return Err(e),
            };
            Ok((Event { ty, time, data }, p3))
        },
        EventSize::Variable => {
            let (dlen, p3) = match read_u16(input, p2) {
                Ok(x) => x,
                Err(e) => return Err(e),
            };
            let (data, p4) = match read_block(input, p3, dlen as usize) {
                Ok(x) => x,
                Err(e) => return Err(e),
            };
            Ok((Event { ty, time, data }, p4))
        },
    }
}

/// Decode the zero-or-more repetition of event records starting at `start`,
/// stopping cleanly at the first offset where the body's end marker is found.
fn parse_event_list(input: &[u8], start: usize, sizes: &HashMap<u16, EventSize>) -> (r: Result<
    (Vec<Event>, usize),
    DecodeError,
>)
    requires
        start <= input@.len(),
    ensures
        match (r, spec_parse_event_list(input@, start as int, sizes@)) {
            (Ok((es, p)), Ok((ses, sp))) => events_view(es@) == ses && p as int == sp && start <= p
                && p + 2 <= input@.len(),
            (Err(e), Err(se)) => e == se,
            _ => false,
        },
{
    let mut events: Vec<Event> = Vec::new();
    let mut pos = start;
    loop
        invariant
            start <= pos <= input@.len(),
            match spec_parse_event_list(input@, pos as int, sizes@) {
                Ok((rest, sp)) => spec_parse_event_list(input@, start as int, sizes@) == Ok::<
                    _,
                    DecodeError,
                >((events_view(events@) + rest, sp)),
                Err(e) => spec_parse_event_list(input@, start as int, sizes@) == Err::<
                    (Seq<SpecEvent>, int),
                    _,
                >(e),
            },
        ensures
            start <= pos <= input@.len(),
            spec_tag_at(input@, pos as int, data_end_tag()),
            spec_parse_event_list(input@, start as int, sizes@) == Ok::<_, DecodeError>(
                (events_view(events@) + Seq::<SpecEvent>::empty(), pos as int),
            ),
        decreases input@.len() - pos,
    {
        if tag2_at(input, pos, 255, 255) {  // body end marker
            break;
        }
        match parse_event(input, pos, sizes) {
            Err(e) => {
                return Err(e);
            },
            Ok((ev, p2)) => {
                proof {
                    let s = input@;
                    match spec_parse_event_list(s, p2 as int, sizes@) {
                        Err(e2) => {
                            assert(spec_parse_event_list(s, pos as int, sizes@) == Err::<
                                (Seq<SpecEvent>, int),
                                _,
                            >(e2));
                        },
                        Ok((rest, k)) => {
                            assert(spec_parse_event_list(s, pos as int, sizes@) == Ok::<
                                _,
                                DecodeError,
                            >((seq![ev@] + rest, k)));
                            assert(events_view(events@.push(ev)) =~= events_view(events@).push(
                                ev@,
                            ));
                            assert(events_view(events@) + (seq![ev@] + rest) =~= events_view(
                                events@,
                            ).push(ev@) + rest);
                        },
                    }
                }
                events.push(ev);
                pos = p2;
            },
        }
    }
    proof {
        assert(events_view(events@) + Seq::<SpecEvent>::empty() =~= events_view(events@));
    }
    Ok((events, pos))
}

/// Decode the body section at offset `pos`: the event stream between its
/// begin tag and its end marker.
fn parse_body(input: &[u8], pos: usize, sizes: &HashMap<u16, EventSize>) -> (r: Result<
    (Vec<Event>, usize),
    DecodeError,
>)
    requires
        pos <= input@.len(),
    ensures
        match (r, spec_parse_body(input@, pos as int, sizes@)) {
            (Ok((es, p)), Ok((ses, sp))) => events_view(es@) == ses && p as int == sp && p
                <= input@.len(),
            (Err(e), Err(se)) => e == se,
            _ => false,
        },
{
    proof {
        assert(input.len() == input@.len());
    }
    if !tag4_at(input, pos, 100, 97, 116, 98) {  // "datb"
        return Err(DecodeError::TagMismatch { pos });
    }
    match parse_event_list(input, pos + 4, sizes) {
        Err(e) => Err(e),
        Ok((events, p)) => Ok((events, p + 2)),
    }
}

/// Decode a whole eventlog buffer.
///
/// On success the result holds the decoded type dictionary, in file order,
/// and the decoded event stream, in file order, exactly as
/// `grammar::spec_parse_eventlog` describes; bytes after the body's end
/// marker are ignored. On failure the error says why and at which byte
/// offset, again exactly as the spec function describes.
pub fn parse_eventlog(input: &[u8]) -> (r: Result<(Vec<EventType>, Vec<Event>), DecodeError>)
    ensures
        match (r, spec_parse_eventlog(input@)) {
            (Ok((types, events)), Ok((stypes, sevents))) => types_view(types@) == stypes
                && events_view(events@) == sevents,
            (Err(e), Err(se)) => e == se,
            _ => false,
        },
{
    let (types, p1) = match parse_header(input, 0) {
        Ok(x) => x,
        Err(e) => return Err(e),
    };
    let sizes = build_size_registry(&types);
    let events = match parse_body(input, p1, &sizes) {
        Ok((es, _p2)) => es,
        Err(e) => return Err(e),
    };
    Ok((types, events))
}

} // verus!
