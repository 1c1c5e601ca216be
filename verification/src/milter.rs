//! Per-command Milter decoding: option negotiation, connection and HELO
//! replies, macro batches, header and body accumulation, and the
//! end-of-headers / end-of-body response.

use vstd::prelude::*;
use vstd::string::StringSliceAdditionalSpecFns;

use crate::frame::{push_be32, spec_be32, spec_be32_bytes};
use crate::headers::{spec_add_header, HeaderMap};
use crate::milter_command::{spec_macro_from_u8, MilterMacro};
use crate::util::{
    append_bytes, copy_bytes, find_byte, lemma_find_byte_props, spec_field_trim, spec_find_byte,
    field_trim,
};

verus! {

/// The CONTINUE response frame: length 1, command 0x06.
pub open spec fn spec_continue_frame() -> Seq<u8> {
    seq![0u8, 0u8, 0u8, 1u8, 0x06u8]
}

/// The ACCEPT response frame: length 1, command 0x61.
pub open spec fn spec_accept_frame() -> Seq<u8> {
    seq![0u8, 0u8, 0u8, 1u8, 0x61u8]
}

fn continue_frame() -> (r: Vec<u8>)
    ensures
        r@ == spec_continue_frame(),
{
    let mut r: Vec<u8> = Vec::new();
    push_be32(&mut r, 1);
    r.push(0x06);
    proof {
        crate::frame::lemma_be32_bytes_small(1);
        assert(r@ =~= spec_continue_frame());
    }
    r
}

/// The three 32-bit fields exchanged during option negotiation.
#[derive(Debug, Clone, Copy, PartialEq, Eq, Structural)]
pub struct NegotiationRecord {
    pub version: u32,
    pub actions: u32,
    pub protocol: u32,
}

/// The negotiation reply: version and actions echoed, and the NO_BODY (0x10)
/// and NO_HDRS (0x20) protocol bits forced to zero so the MTA sends header
/// and body frames.
pub open spec fn spec_optneg_reply(req: NegotiationRecord) -> NegotiationRecord {
    NegotiationRecord { version: req.version, actions: req.actions, protocol: req.protocol & !0x30 }
}

/// The full negotiation response frame:
/// `BE32(13) || 0x4F || version || actions || (protocol & !0x30)`.
pub open spec fn spec_optneg_response(req: NegotiationRecord) -> Seq<u8> {
    spec_be32_bytes(13) + seq![0x4fu8] + spec_be32_bytes(req.version) + spec_be32_bytes(req.actions)
        + spec_be32_bytes(req.protocol & !0x30)
}

/// Option negotiation response invariant: the reply echoes version and
/// actions, clears exactly the NO_BODY and NO_HDRS bits, and preserves
/// every other protocol bit.
pub proof fn lemma_optneg_response_invariant(req: NegotiationRecord)
    ensures
        spec_optneg_reply(req).version == req.version,
        spec_optneg_reply(req).actions == req.actions,
        spec_optneg_reply(req).protocol & 0x30 == 0,
        spec_optneg_reply(req).protocol & !0x30 == req.protocol & !0x30,
{
    let p = req.protocol;
    assert((p & !0x30) & 0x30 == 0) by (bit_vector);
    assert((p & !0x30) & !0x30 == p & !0x30) by (bit_vector);
}

/// The action-mask flag names that are set in `a`, in table order.
pub open spec fn spec_action_flag_names(a: u32) -> Seq<Seq<char>> {
    (if a & 0x01 != 0 { seq!["ADD_HEADERS"@] } else { Seq::empty() })
    + (if a & 0x02 != 0 { seq!["CHANGE_BODY"@] } else { Seq::empty() })
    + (if a & 0x04 != 0 { seq!["ADD_RECIPIENTS"@] } else { Seq::empty() })
    + (if a & 0x08 != 0 { seq!["DELETE_RECIPIENTS"@] } else { Seq::empty() })
    + (if a & 0x10 != 0 { seq!["QUARANTINE"@] } else { Seq::empty() })
    + (if a & 0x20 != 0 { seq!["REPLACE_HEADERS"@] } else { Seq::empty() })
    + (if a & 0x40 != 0 { seq!["CHANGE_REPLY"@] } else { Seq::empty() })
}

/// The protocol-mask flag names that are set in `p`, in table order.
pub open spec fn spec_protocol_flag_names(p: u32) -> Seq<Seq<char>> {
    (if p & 0x01 != 0 { seq!["NO_CONNECT"@] } else { Seq::empty() })
    + (if p & 0x02 != 0 { seq!["NO_HELO"@] } else { Seq::empty() })
    + (if p & 0x04 != 0 { seq!["NO_ENVFROM"@] } else { Seq::empty() })
    + (if p & 0x08 != 0 { seq!["NO_ENVRCPT"@] } else { Seq::empty() })
    + (if p & 0x10 != 0 { seq!["NO_BODY"@] } else { Seq::empty() })
    + (if p & 0x20 != 0 { seq!["NO_HDRS"@] } else { Seq::empty() })
    + (if p & 0x40 != 0 { seq!["NO_UNKNOWN"@] } else { Seq::empty() })
    + (if p & 0x80 != 0 { seq!["NO_DATA"@] } else { Seq::empty() })
}

fn push_flag(r: &mut Vec<&'static str>, cond: bool, name: &'static str)
    ensures
        final(r).deep_view() == old(r).deep_view() + (if cond {
            seq![name@]
        } else {
            Seq::<Seq<char>>::empty()
        }),
{
    if cond {
        r.push(name);
        proof {
            assert(r.deep_view() =~~= old(r).deep_view() + seq![name@]);
        }
    } else {
        proof {
            assert(r.deep_view() =~~= old(r).deep_view() + Seq::<Seq<char>>::empty());
        }
    }
}

fn action_flag_names(a: u32) -> (r: Vec<&'static str>)
    ensures
        r.deep_view() == spec_action_flag_names(a),
{
    let mut r: Vec<&'static str> = Vec::new();
    proof {
        assert(r.deep_view() =~~= Seq::<Seq<char>>::empty());
    }
    push_flag(&mut r, a & 0x01 != 0, "ADD_HEADERS");
    proof {
        assert(Seq::<Seq<char>>::empty() + (if a & 0x01 != 0 {
            seq!["ADD_HEADERS"@]
        } else {
            Seq::<Seq<char>>::empty()
        }) =~= (if a & 0x01 != 0 {
            seq!["ADD_HEADERS"@]
        } else {
            Seq::<Seq<char>>::empty()
        }));
    }
    push_flag(&mut r, a & 0x02 != 0, "CHANGE_BODY");
    push_flag(&mut r, a & 0x04 != 0, "ADD_RECIPIENTS");
    push_flag(&mut r, a & 0x08 != 0, "DELETE_RECIPIENTS");
    push_flag(&mut r, a & 0x10 != 0, "QUARANTINE");
    push_flag(&mut r, a & 0x20 != 0, "REPLACE_HEADERS");
    push_flag(&mut r, a & 0x40 != 0, "CHANGE_REPLY");
    r
}

fn protocol_flag_names(p: u32) -> (r: Vec<&'static str>)
    ensures
        r.deep_view() == spec_protocol_flag_names(p),
{
    let mut r: Vec<&'static str> = Vec::new();
    proof {
        assert(r.deep_view() =~~= Seq::<Seq<char>>::empty());
    }
    push_flag(&mut r, p & 0x01 != 0, "NO_CONNECT");
    proof {
        assert(Seq::<Seq<char>>::empty() + (if p & 0x01 != 0 {
            seq!["NO_CONNECT"@]
        } else {
            Seq::<Seq<char>>::empty()
        }) =~= (if p & 0x01 != 0 {
            seq!["NO_CONNECT"@]
        } else {
            Seq::<Seq<char>>::empty()
        }));
    }
    push_flag(&mut r, p & 0x02 != 0, "NO_HELO");
    push_flag(&mut r, p & 0x04 != 0, "NO_ENVFROM");
    push_flag(&mut r, p & 0x08 != 0, "NO_ENVRCPT");
    push_flag(&mut r, p & 0x10 != 0, "NO_BODY");
    push_flag(&mut r, p & 0x20 != 0, "NO_HDRS");
    push_flag(&mut r, p & 0x40 != 0, "NO_UNKNOWN");
    push_flag(&mut r, p & 0x80 != 0, "NO_DATA");
    r
}

/// Everything decided by one option-negotiation request.
pub struct OptnegDecode {
    /// The three fields as the client sent them.
    pub request: NegotiationRecord,
    /// The three fields of the reply.
    pub reply: NegotiationRecord,
    /// The response frame to write back.
    pub response: Vec<u8>,
    /// Names of the action flags the client offered.
    pub action_names: Vec<&'static str>,
    /// Names of the protocol flags the client offered.
    pub protocol_names: Vec<&'static str>,
}

/// Decodes an option-negotiation payload and shapes the response.
/// Payloads of fewer than 12 bytes are rejected.
pub fn decode_optneg(payload: &[u8]) -> (r: Option<OptnegDecode>)
    ensures
        r.is_some() <==> payload@.len() >= 12,
        match r {
            Some(d) => {
                &&& d.request == NegotiationRecord {
                    version: spec_be32(payload@[0], payload@[1], payload@[2], payload@[3]),
                    actions: spec_be32(payload@[4], payload@[5], payload@[6], payload@[7]),
                    protocol: spec_be32(payload@[8], payload@[9], payload@[10], payload@[11]),
                }
                &&& d.reply == spec_optneg_reply(d.request)
                &&& d.response@ == spec_optneg_response(d.request)
                &&& d.action_names.deep_view() == spec_action_flag_names(d.request.actions)
                &&& d.protocol_names.deep_view() == spec_protocol_flag_names(d.request.protocol)
            },
            None => true,
        },
{
    if payload.len() < 12 {
        return None;
    }
    let version = crate::frame::be32_decode(payload[0], payload[1], payload[2], payload[3]);
    let actions = crate::frame::be32_decode(payload[4], payload[5], payload[6], payload[7]);
    let protocol = crate::frame::be32_decode(payload[8], payload[9], payload[10], payload[11]);
    let request = NegotiationRecord { version, actions, protocol };
    let reply = NegotiationRecord { version, actions, protocol: protocol & !0x30 };
    let mut response: Vec<u8> = Vec::new();
    push_be32(&mut response, 13);
    response.push(0x4f);
    push_be32(&mut response, version);
    push_be32(&mut response, actions);
    push_be32(&mut response, protocol & !0x30);
    proof {
        assert(response@ =~= spec_optneg_response(request));
    }
    Some(
        OptnegDecode {
            request,
            reply,
            response,
            action_names: action_flag_names(actions),
            protocol_names: protocol_flag_names(protocol),
        },
    )
}

/// Replies CONTINUE to a connection-information frame; the payload itself
/// only feeds the log.
pub fn decode_connect(payload: &[u8]) -> (resp: Vec<u8>)
    ensures
        resp@ == spec_continue_frame(),
{
    let _ = payload;
    continue_frame()
}

/// Replies CONTINUE to a HELO frame; the payload itself only feeds the log.
pub fn decode_helo(payload: &[u8]) -> (resp: Vec<u8>)
    ensures
        resp@ == spec_continue_frame(),
{
    let _ = payload;
    continue_frame()
}

/// The response to a 0x45 frame: ACCEPT when it closes a body, CONTINUE
/// when it only closes the header block.
pub fn decode_eoh_bodyeob(is_body_eob: bool) -> (resp: Vec<u8>)
    ensures
        resp@ == if is_body_eob {
            spec_accept_frame()
        } else {
            spec_continue_frame()
        },
{
    let mut r: Vec<u8> = Vec::new();
    push_be32(&mut r, 1);
    proof {
        crate::frame::lemma_be32_bytes_small(1);
    }
    if is_body_eob {
        r.push(0x61);
        proof {
            assert(r@ =~= spec_accept_frame());
        }
    } else {
        r.push(0x06);
        proof {
            assert(r@ =~= spec_continue_frame());
        }
    }
    r
}

/// The stored name of a header payload `name || 0x00 || value`.
pub open spec fn spec_header_name(payload: Seq<u8>) -> Seq<u8> {
    spec_field_trim(payload.subrange(0, spec_find_byte(payload, 0)))
}

/// The stored value of a header payload; empty when no NUL separator exists.
pub open spec fn spec_header_value(payload: Seq<u8>) -> Seq<u8> {
    let k = spec_find_byte(payload, 0);
    if k < payload.len() {
        spec_field_trim(payload.subrange(k + 1, payload.len() as int))
    } else {
        spec_field_trim(Seq::empty())
    }
}

/// Splits a header payload at its first NUL, trims both fields, and appends
/// the value under the name.
pub fn decode_header(payload: &[u8], header_fields: &mut HeaderMap)
    requires
        old(header_fields).wf(),
    ensures
        final(header_fields)@ == spec_add_header(
            old(header_fields)@,
            spec_header_name(payload@),
            spec_header_value(payload@),
        ),
        final(header_fields).wf(),
{
    proof {
        lemma_find_byte_props(payload@, 0);
    }
    let k = find_byte(payload, 0);
    let name = field_trim(&payload[0..k]);
    let value = if k < payload.len() {
        field_trim(&payload[k + 1..payload.len()])
    } else {
        let empty: Vec<u8> = Vec::new();
        proof {
            assert(empty@ =~= spec_field_trim(Seq::empty()));
        }
        empty
    };
    header_fields.add(name, value);
}

/// Appends a body chunk to the accumulated body, byte for byte.
pub fn decode_body(payload: &[u8], body_field: &mut Vec<u8>)
    ensures
        final(body_field)@ == old(body_field)@ + payload@,
{
    append_bytes(body_field, payload);
}

/// The payload split at NUL bytes, empty records dropped.
pub open spec fn spec_split_nul_parts(s: Seq<u8>) -> Seq<Seq<u8>>
    decreases s.len(),
    via spec_split_nul_parts_dec
{
    if s.len() == 0 {
        Seq::empty()
    } else {
        let k = spec_find_byte(s, 0);
        let head = s.subrange(0, k);
        let rest = if k < s.len() {
            spec_split_nul_parts(s.subrange(k + 1, s.len() as int))
        } else {
            Seq::empty()
        };
        if head.len() == 0 {
            rest
        } else {
            seq![head] + rest
        }
    }
}

#[via_fn]
proof fn spec_split_nul_parts_dec(s: Seq<u8>) {
    lemma_find_byte_props(s, 0);
}

/// Every record the split yields is non-empty.
pub proof fn lemma_split_parts_nonempty(s: Seq<u8>)
    ensures
        forall|i: int|
            0 <= i < spec_split_nul_parts(s).len() ==> #[trigger] spec_split_nul_parts(
                s,
            )[i].len() > 0,
    decreases s.len(),
{
    lemma_find_byte_props(s, 0);
    if s.len() == 0 {
    } else {
        let k = spec_find_byte(s, 0);
        let head = s.subrange(0, k);
        let rest = if k < s.len() {
            spec_split_nul_parts(s.subrange(k + 1, s.len() as int))
        } else {
            Seq::<Seq<u8>>::empty()
        };
        if k < s.len() {
            lemma_split_parts_nonempty(s.subrange(k + 1, s.len() as int));
        }
        if head.len() == 0 {
            assert(spec_split_nul_parts(s) == rest);
        } else {
            assert(spec_split_nul_parts(s) == seq![head] + rest);
            assert forall|i: int|
                0 <= i < spec_split_nul_parts(s).len() implies #[trigger] spec_split_nul_parts(
                s,
            )[i].len() > 0 by {
                if i > 0 {
                    assert(spec_split_nul_parts(s)[i] == rest[i - 1]);
                }
            }
        }
    }
}

/// Splits `s` at NUL bytes and drops empty records.
pub fn split_nul_parts(s: &[u8]) -> (r: Vec<Vec<u8>>)
    ensures
        r.deep_view() == spec_split_nul_parts(s@),
{
    let mut parts: Vec<Vec<u8>> = Vec::new();
    let mut pos: usize = 0;
    proof {
        assert(s@.skip(0) =~= s@);
        assert(parts.deep_view() + spec_split_nul_parts(s@) =~= spec_split_nul_parts(s@));
    }
    while pos < s.len()
        invariant
            pos <= s.len(),
            spec_split_nul_parts(s@) == parts.deep_view() + spec_split_nul_parts(
                s@.skip(pos as int),
            ),
        decreases s.len() - pos,
    {
        let ghost t = s@.skip(pos as int);
        let mut k: usize = pos;
        while k < s.len() && s[k] != 0
            invariant
                pos <= k <= s.len(),
                forall|j: int| pos <= j < k ==> s@[j] != 0,
            decreases s.len() - k,
        {
            k += 1;
        }
        proof {
            assert forall|j: int| 0 <= j < k - pos implies t[j] != 0 by {
                assert(t[j] == s@[pos + j]);
            }
            if k < s.len() {
                assert(t[k - pos] == s@[k as int]);
            }
            crate::util::lemma_find_byte_at(t, 0, k - pos as int);
            assert(spec_find_byte(t, 0) == k - pos);
            assert(t.subrange(0, k - pos as int) =~= s@.subrange(pos as int, k as int));
        }
        let head = copy_bytes(&s[pos..k]);
        let ghost parts0 = parts.deep_view();
        if head.len() > 0 {
            parts.push(head);
            proof {
                assert(parts.deep_view() =~~= parts0.push(s@.subrange(pos as int, k as int)));
            }
        }
        if k < s.len() {
            proof {
                assert(t.subrange(k - pos + 1 as int, t.len() as int) =~= s@.skip(k + 1 as int));
                assert(spec_split_nul_parts(s@) == parts.deep_view() + spec_split_nul_parts(
                    s@.skip(k + 1 as int),
                )) by {
                    assert(parts.deep_view() + spec_split_nul_parts(s@.skip(k + 1 as int)) =~=
                        parts0 + spec_split_nul_parts(t));
                }
            }
            pos = k + 1;
        } else {
            proof {
                assert(spec_split_nul_parts(s@) == parts.deep_view() + spec_split_nul_parts(
                    s@.skip(s@.len() as int),
                )) by {
                    assert(s@.skip(s@.len() as int).len() == 0);
                    assert(parts.deep_view() + spec_split_nul_parts(s@.skip(s@.len() as int)) =~=
                        parts0 + spec_split_nul_parts(t));
                }
            }
            pos = s.len();
        }
    }
    proof {
        assert(s@.skip(pos as int).len() == 0);
        assert(parts.deep_view() + spec_split_nul_parts(s@.skip(pos as int)) =~= parts.deep_view());
    }
    parts
}

/// The UTF-8 bytes of a macro identifier's descriptive name.
pub open spec fn spec_macro_name_bytes(m: MilterMacro) -> Seq<u8> {
    match m {
        MilterMacro::Connect => "MACRO_Connect".spec_bytes(),
        MilterMacro::Helo => "MACRO_Helo".spec_bytes(),
        MilterMacro::Mail => "MACRO_Mail".spec_bytes(),
        MilterMacro::Rcpt => "MACRO_Rcpt".spec_bytes(),
        MilterMacro::Eob => "MACRO_Eob".spec_bytes(),
        MilterMacro::Data => "MACRO_Data".spec_bytes(),
        MilterMacro::Soh => "MACRO_Soh".spec_bytes(),
        MilterMacro::Header => "MACRO_Header".spec_bytes(),
        MilterMacro::Body => "MACRO_Body".spec_bytes(),
        MilterMacro::Quit => "MACRO_Quit".spec_bytes(),
        MilterMacro::Hostname => "MACRO_Hostname".spec_bytes(),
        MilterMacro::QueueId => "MACRO_QueueId".spec_bytes(),
        MilterMacro::DaemonName => "MACRO_DaemonName".spec_bytes(),
        MilterMacro::ClientName => "MACRO_ClientName".spec_bytes(),
        MilterMacro::ClientAddr => "MACRO_ClientAddr".spec_bytes(),
        MilterMacro::BodyType => "MACRO_BodyType".spec_bytes(),
        MilterMacro::Version => "MACRO_Version".spec_bytes(),
        MilterMacro::Space => "MACRO_Space".spec_bytes(),
        MilterMacro::Vender => "MACRO_Vender".spec_bytes(),
        MilterMacro::Unknown(_) => "MACRO_Unknown".spec_bytes(),
    }
}

fn macro_name_bytes(m: MilterMacro) -> (r: Vec<u8>)
    ensures
        r@ == spec_macro_name_bytes(m),
{
    copy_bytes(m.as_str().as_bytes())
}

/// The rendered name of one macro record: a brace-introduced record names a
/// vendor macro, anything else is named after its first byte.
pub open spec fn spec_render_macro_name(nb: Seq<u8>) -> Seq<u8> {
    if nb.len() > 0 && nb[0] == 0x7b {
        let k = spec_find_byte(nb.skip(1), 0x7d);
        if k < nb.len() - 1 {
            spec_macro_name_bytes(MilterMacro::Vender) + seq![0x28u8] + nb.subrange(1, 1 + k)
                + seq![0x29u8]
        } else {
            spec_macro_name_bytes(MilterMacro::Vender) + "(Unknown)".spec_bytes()
        }
    } else if nb.len() > 0 {
        spec_macro_name_bytes(spec_macro_from_u8(nb[0]))
    } else {
        spec_macro_name_bytes(MilterMacro::Unknown(0))
    }
}

fn render_macro_name(nb: &[u8]) -> (r: Vec<u8>)
    requires
        nb@.len() > 0,
    ensures
        r@ == spec_render_macro_name(nb@),
{
    if nb[0] == 0x7b {
        proof {
            lemma_find_byte_props(nb@.skip(1), 0x7d);
        }
        let rest = &nb[1..nb.len()];
        let k = find_byte(rest, 0x7d);
        let mut out = macro_name_bytes(MilterMacro::Vender);
        if k < nb.len() - 1 {
            out.push(0x28);
            append_bytes(&mut out, &nb[1..1 + k]);
            out.push(0x29);
            proof {
                assert(nb@.subrange(1, 1 + k as int) =~= nb@.skip(1).subrange(0, k as int));
                assert(out@ =~= spec_render_macro_name(nb@));
            }
        } else {
            append_bytes(&mut out, "(Unknown)".as_bytes());
            proof {
                assert(out@ =~= spec_render_macro_name(nb@));
            }
        }
        out
    } else {
        macro_name_bytes(MilterMacro::from_u8(nb[0]))
    }
}

/// The (name, value) records of a macro batch from index 2 on, two records
/// per macro; a leftover record at the tail is skipped.
pub open spec fn spec_macro_pairs_tail(parts: Seq<Seq<u8>>, i: int) -> Seq<(Seq<u8>, Seq<u8>)>
    decreases parts.len() - i,
{
    if 0 <= i && i + 1 < parts.len() {
        seq![(spec_render_macro_name(parts[i]), parts[i + 1])] + spec_macro_pairs_tail(
            parts,
            i + 2,
        )
    } else {
        Seq::empty()
    }
}

/// All (name, value) records of a macro batch: the first macro shares its
/// name record with the phase byte, the rest come two records at a time.
pub open spec fn spec_macro_pairs(parts: Seq<Seq<u8>>) -> Seq<(Seq<u8>, Seq<u8>)> {
    (if parts.len() > 1 && parts[0].len() > 1 {
        seq![(spec_render_macro_name(parts[0].skip(1)), parts[1])]
    } else {
        Seq::empty()
    }) + spec_macro_pairs_tail(parts, 2)
}

/// The phase of a macro batch: the first byte of its first record.
pub open spec fn spec_data_phase(parts: Seq<Seq<u8>>) -> Option<MilterMacro> {
    if parts.len() > 0 {
        Some(spec_macro_from_u8(parts[0][0]))
    } else {
        None
    }
}

/// Decodes a DATA macro batch: notes the phase (entering the header block on
/// a start-of-header batch) and renders each macro name with its value.
pub fn decode_data_macros(payload: &[u8], is_header_block: &mut bool) -> (r: (
    Option<MilterMacro>,
    Vec<(Vec<u8>, Vec<u8>)>,
))
    ensures
        r.0 == spec_data_phase(spec_split_nul_parts(payload@)),
        r.1.deep_view() == spec_macro_pairs(spec_split_nul_parts(payload@)),
        *final(is_header_block) == if spec_data_phase(spec_split_nul_parts(payload@)) == Some(
            MilterMacro::Soh,
        ) {
            true
        } else {
            *old(is_header_block)
        },
{
    let ghost pv = spec_split_nul_parts(payload@);
    proof {
        lemma_split_parts_nonempty(payload@);
    }
    let parts = split_nul_parts(payload);
    proof {
        assert(parts@.len() == pv.len());
        assert(forall|i: int| 0 <= i < parts@.len() ==> #[trigger] parts@[i]@ == pv[i]);
    }
    if parts.len() == 0 {
        let empty_pairs: Vec<(Vec<u8>, Vec<u8>)> = Vec::new();
        proof {
            assert(empty_pairs.deep_view() =~= spec_macro_pairs(pv));
        }
        return (None, empty_pairs);
    }
    let phase = MilterMacro::from_u8(parts[0].as_slice()[0]);
    if phase == MilterMacro::Soh {
        *is_header_block = true;
    }
    let mut pairs: Vec<(Vec<u8>, Vec<u8>)> = Vec::new();
    if parts[0].len() > 1 && parts.len() > 1 {
        let p0 = parts[0].as_slice();
        let name = render_macro_name(&p0[1..p0.len()]);
        proof {
            assert(p0@.subrange(1, p0@.len() as int) =~= pv[0].skip(1));
        }
        let value = copy_bytes(parts[1].as_slice());
        pairs.push((name, value));
        proof {
            assert(pairs.deep_view() =~~= seq![
                (spec_render_macro_name(pv[0].skip(1)), pv[1]),
            ]);
        }
    }
    let ghost base = pairs.deep_view();
    proof {
        assert(spec_macro_pairs(pv) =~= base + spec_macro_pairs_tail(pv, 2));
    }
    let mut idx: usize = 2;
    while parts.len() >= 1 && idx < parts.len() - 1
        invariant
            2 <= idx,
            parts.deep_view() == pv,
            forall|i: int| 0 <= i < pv.len() ==> #[trigger] pv[i].len() > 0,
            spec_macro_pairs(pv) == pairs.deep_view() + spec_macro_pairs_tail(pv, idx as int),
        decreases parts.len() - idx,
    {
        proof {
            assert(parts@[idx as int]@ == pv[idx as int]);
            assert(parts@[idx + 1]@ == pv[idx + 1]);
        }
        let name = render_macro_name(parts[idx].as_slice());
        let value = copy_bytes(parts[idx + 1].as_slice());
        let ghost before = pairs.deep_view();
        pairs.push((name, value));
        proof {
            assert(pairs.deep_view() =~~= before.push(
                (spec_render_macro_name(pv[idx as int]), pv[idx + 1]),
            ));
            assert(spec_macro_pairs_tail(pv, idx as int) == seq![
                (spec_render_macro_name(pv[idx as int]), pv[idx + 1]),
            ] + spec_macro_pairs_tail(pv, idx + 2));
            assert(pairs.deep_view() + spec_macro_pairs_tail(pv, idx + 2) =~= before
                + spec_macro_pairs_tail(pv, idx as int));
        }
        idx += 2;
    }
    proof {
        assert(spec_macro_pairs_tail(pv, idx as int) =~= Seq::<(Seq<u8>, Seq<u8>)>::empty());
        assert(pairs.deep_view() + Seq::<(Seq<u8>, Seq<u8>)>::empty() =~= pairs.deep_view());
        assert(parts@[0]@ == pv[0]);
    }
    (Some(phase), pairs)
}

} // verus!
