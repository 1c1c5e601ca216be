//! The per-connection session: phase flags, accumulated headers and body,
//! and the transition taken for each received frame.

use vstd::prelude::*;

use crate::frame::spec_be32;
use crate::headers::{spec_add_header, HeaderMap};
use crate::milter::{
    decode_body, decode_connect, decode_data_macros, decode_eoh_bodyeob, decode_header,
    decode_helo, decode_optneg, spec_accept_frame, spec_action_flag_names, spec_continue_frame,
    spec_data_phase, spec_header_name, spec_header_value, spec_macro_pairs, spec_optneg_reply,
    spec_optneg_response, spec_protocol_flag_names, spec_split_nul_parts, NegotiationRecord,
    OptnegDecode,
};
use crate::milter_command::{spec_command_from_u8, MilterCommand, MilterMacro};
use crate::parse::{parse_mail, spec_report};
use crate::util::{hex_dump, spec_hex_dump};

verus! {

/// Why a session must end.
#[derive(Debug, Clone, Copy, PartialEq, Eq, Structural)]
pub enum TermReason {
    /// A command byte outside the protocol's table.
    UnknownCommand(u8),
    /// An option-negotiation payload of fewer than 12 bytes.
    NegotiationMalformed,
}

/// Everything one frame makes the session do.
pub struct FrameOutcome {
    /// The response frame to write back, if the command calls for one.
    pub response: Option<Vec<u8>>,
    /// The end-of-message report, emitted exactly at end-of-body.
    pub report: Option<Vec<Vec<u8>>>,
    /// Set when the session must close.
    pub terminate: Option<TermReason>,
    /// The decoded option negotiation, for the log.
    pub optneg: Option<OptnegDecode>,
    /// Decoded macro (name, value) records of a DATA batch, for the log.
    pub macros: Vec<(Vec<u8>, Vec<u8>)>,
    /// The phase identifier of a DATA macro batch.
    pub macro_phase: Option<MilterMacro>,
    /// The hex dump of an otherwise unhandled command's payload.
    pub dump: Option<Vec<u8>>,
}

/// Per-connection state: the peer's printable name, the two phase flags
/// that disambiguate the shared 0x45 byte, and the accumulators.
pub struct Session {
    pub peer: Vec<u8>,
    pub in_body_phase: bool,
    pub in_header_block: bool,
    pub headers: HeaderMap,
    pub body: Vec<u8>,
}

/// The frame left every field of the session as it was.
pub open spec fn spec_state_unchanged(pre: Session, post: Session) -> bool {
    &&& post.in_body_phase == pre.in_body_phase
    &&& post.in_header_block == pre.in_header_block
    &&& post.headers@ == pre.headers@
    &&& post.body@ == pre.body@
}

/// The frame produced no output at all.
pub open spec fn spec_no_output(o: FrameOutcome) -> bool {
    &&& o.response is None
    &&& o.report is None
    &&& o.terminate is None
    &&& o.optneg is None
    &&& o.macros@.len() == 0
    &&& o.macro_phase is None
    &&& o.dump is None
}

/// No response, report, negotiation record or dump; the quiet commands.
pub open spec fn spec_only_state(o: FrameOutcome) -> bool {
    &&& o.response is None
    &&& o.report is None
    &&& o.terminate is None
    &&& o.optneg is None
    &&& o.dump is None
}

/// The session's transition relation, one case per command byte. The byte
/// 0x45 is decided here: end-of-body exactly when a BODY frame has arrived
/// since the last end-of-message, and only then is the message reassembled,
/// reported, and the per-transaction state reset.
pub open spec fn spec_frame_step(
    pre: Session,
    cmd: u8,
    payload: Seq<u8>,
    post: Session,
    o: FrameOutcome,
) -> bool {
    &&& post.peer@ == pre.peer@
    &&& match spec_command_from_u8(cmd) {
        None => {
            &&& o.terminate == Some(TermReason::UnknownCommand(cmd))
            &&& o.response is None
            &&& o.report is None
            &&& o.optneg is None
            &&& o.macros@.len() == 0
            &&& o.macro_phase is None
            &&& o.dump is None
            &&& spec_state_unchanged(pre, post)
        },
        Some(c) => match c {
            MilterCommand::OptNeg => {
                if payload.len() >= 12 {
                    let req = NegotiationRecord {
                        version: spec_be32(payload[0], payload[1], payload[2], payload[3]),
                        actions: spec_be32(payload[4], payload[5], payload[6], payload[7]),
                        protocol: spec_be32(payload[8], payload[9], payload[10], payload[11]),
                    };
                    &&& (match o.response {
                        Some(r) => r@ == spec_optneg_response(req),
                        None => false,
                    })
                    &&& (match o.optneg {
                        Some(d) => {
                            &&& d.request == req
                            &&& d.reply == spec_optneg_reply(req)
                            &&& d.response@ == spec_optneg_response(req)
                            &&& d.action_names.deep_view() == spec_action_flag_names(req.actions)
                            &&& d.protocol_names.deep_view() == spec_protocol_flag_names(
                                req.protocol,
                            )
                        },
                        None => false,
                    })
                    &&& o.report is None
                    &&& o.terminate is None
                    &&& o.macros@.len() == 0
                    &&& o.macro_phase is None
                    &&& o.dump is None
                    &&& spec_state_unchanged(pre, post)
                } else {
                    &&& o.terminate == Some(TermReason::NegotiationMalformed)
                    &&& o.response is None
                    &&& o.report is None
                    &&& o.optneg is None
                    &&& o.macros@.len() == 0
                    &&& o.macro_phase is None
                    &&& o.dump is None
                    &&& spec_state_unchanged(pre, post)
                }
            },
            MilterCommand::Connect => {
                &&& (match o.response {
                    Some(r) => r@ == spec_continue_frame(),
                    None => false,
                })
                &&& o.report is None
                &&& o.terminate is None
                &&& o.optneg is None
                &&& o.macros@.len() == 0
                &&& o.macro_phase is None
                &&& o.dump is None
                &&& spec_state_unchanged(pre, post)
            },
            MilterCommand::HeLO => {
                &&& (match o.response {
                    Some(r) => r@ == spec_continue_frame(),
                    None => false,
                })
                &&& o.report is None
                &&& o.terminate is None
                &&& o.optneg is None
                &&& o.macros@.len() == 0
                &&& o.macro_phase is None
                &&& o.dump is None
                &&& spec_state_unchanged(pre, post)
            },
            MilterCommand::Data => {
                let parts = spec_split_nul_parts(payload);
                &&& spec_only_state(o)
                &&& o.macro_phase == spec_data_phase(parts)
                &&& o.macros.deep_view() == spec_macro_pairs(parts)
                &&& post.in_header_block == (if spec_data_phase(parts) == Some(MilterMacro::Soh) {
                    true
                } else {
                    pre.in_header_block
                })
                &&& post.in_body_phase == pre.in_body_phase
                &&& post.headers@ == pre.headers@
                &&& post.body@ == pre.body@
            },
            MilterCommand::Header => {
                &&& spec_no_output(o)
                &&& post.headers@ == spec_add_header(
                    pre.headers@,
                    spec_header_name(payload),
                    spec_header_value(payload),
                )
                &&& post.in_body_phase == pre.in_body_phase
                &&& post.in_header_block == pre.in_header_block
                &&& post.body@ == pre.body@
            },
            MilterCommand::Body => {
                &&& spec_no_output(o)
                &&& post.in_body_phase == true
                &&& post.in_header_block == false
                &&& post.headers@ == pre.headers@
                &&& post.body@ == pre.body@ + payload
            },
            MilterCommand::Eoh => {
                if pre.in_body_phase {
                    &&& (match o.response {
                        Some(r) => r@ == spec_accept_frame(),
                        None => false,
                    })
                    &&& (match o.report {
                        Some(lines) => lines.deep_view() == spec_report(pre.headers@, pre.body@),
                        None => false,
                    })
                    &&& o.terminate is None
                    &&& o.optneg is None
                    &&& o.macros@.len() == 0
                    &&& o.macro_phase is None
                    &&& o.dump is None
                    &&& post.in_body_phase == false
                    &&& post.in_header_block == pre.in_header_block
                    &&& post.headers@ == Seq::<(Seq<u8>, Seq<Seq<u8>>)>::empty()
                    &&& post.body@ == Seq::<u8>::empty()
                } else {
                    &&& (match o.response {
                        Some(r) => r@ == spec_continue_frame(),
                        None => false,
                    })
                    &&& o.report is None
                    &&& o.terminate is None
                    &&& o.optneg is None
                    &&& o.macros@.len() == 0
                    &&& o.macro_phase is None
                    &&& o.dump is None
                    &&& spec_state_unchanged(pre, post)
                }
            },
            _ => {
                &&& o.response is None
                &&& o.report is None
                &&& o.terminate is None
                &&& o.optneg is None
                &&& o.macros@.len() == 0
                &&& o.macro_phase is None
                &&& (match o.dump {
                    Some(d) => payload.len() > 0 && d@ == spec_hex_dump(payload),
                    None => payload.len() == 0,
                })
                &&& spec_state_unchanged(pre, post)
            },
        },
    }
}

impl Session {
    /// The header store keeps one entry per name.
    pub open spec fn wf(&self) -> bool {
        self.headers.wf()
    }

    /// A fresh session for a connection: no body seen, no header block,
    /// empty accumulators.
    pub fn new(peer: Vec<u8>) -> (r: Self)
        ensures
            r.peer@ == peer@,
            r.in_body_phase == false,
            r.in_header_block == false,
            r.headers@ == Seq::<(Seq<u8>, Seq<Seq<u8>>)>::empty(),
            r.body@ == Seq::<u8>::empty(),
            r.wf(),
    {
        Session {
            peer,
            in_body_phase: false,
            in_header_block: false,
            headers: HeaderMap::new(),
            body: Vec::new(),
        }
    }

    /// Processes one received frame: decodes the command, updates the
    /// session state, and says what to send back, what to report, and
    /// whether to close. End-of-headers and end-of-body share the command
    /// byte 0x45: with no BODY received since the last end-of-message the
    /// frame elicits CONTINUE and no report; after at least one BODY it
    /// elicits ACCEPT, the message is reassembled and reported exactly
    /// once, and the accumulators and body phase are reset.
    pub fn handle_frame(&mut self, cmd: u8, payload: &[u8]) -> (o: FrameOutcome)
        requires
            old(self).wf(),
        ensures
            final(self).wf(),
            spec_frame_step(*old(self), cmd, payload@, *final(self), o),
    {
        let quiet = FrameOutcome {
            response: None,
            report: None,
            terminate: None,
            optneg: None,
            macros: Vec::new(),
            macro_phase: None,
            dump: None,
        };
        match MilterCommand::from_u8(cmd) {
            None => FrameOutcome { terminate: Some(TermReason::UnknownCommand(cmd)), ..quiet },
            Some(MilterCommand::OptNeg) => {
                match decode_optneg(payload) {
                    Some(d) => {
                        let resp = crate::util::copy_bytes(d.response.as_slice());
                        FrameOutcome { response: Some(resp), optneg: Some(d), ..quiet }
                    },
                    None => FrameOutcome {
                        terminate: Some(TermReason::NegotiationMalformed),
                        ..quiet
                    },
                }
            },
            Some(MilterCommand::Connect) => FrameOutcome {
                response: Some(decode_connect(payload)),
                ..quiet
            },
            Some(MilterCommand::HeLO) => FrameOutcome {
                response: Some(decode_helo(payload)),
                ..quiet
            },
            Some(MilterCommand::Data) => {
                let (phase, pairs) = decode_data_macros(payload, &mut self.in_header_block);
                FrameOutcome { macro_phase: phase, macros: pairs, ..quiet }
            },
            Some(MilterCommand::Header) => {
                decode_header(payload, &mut self.headers);
                quiet
            },
            Some(MilterCommand::Body) => {
                self.in_body_phase = true;
                self.in_header_block = false;
                decode_body(payload, &mut self.body);
                quiet
            },
            Some(MilterCommand::Eoh) => {
                let resp = decode_eoh_bodyeob(self.in_body_phase);
                if self.in_body_phase {
                    let report = parse_mail(&self.headers, self.body.as_slice());
                    self.headers.clear();
                    self.body.clear();
                    self.in_body_phase = false;
                    FrameOutcome { response: Some(resp), report: Some(report), ..quiet }
                } else {
                    FrameOutcome { response: Some(resp), ..quiet }
                }
            },
            Some(_) => {
                if payload.len() > 0 {
                    FrameOutcome { dump: Some(hex_dump(payload)), ..quiet }
                } else {
                    quiet
                }
            },
        }
    }
}

/// The body phase is entered only by a BODY frame: after any step the flag
/// is set only if it already was or the frame was BODY, so the shared 0x45
/// byte can never be taken as end-of-body before a body chunk arrived in
/// the current transaction.
pub proof fn lemma_body_phase_only_after_body(
    pre: Session,
    cmd: u8,
    payload: Seq<u8>,
    post: Session,
    o: FrameOutcome,
)
    requires
        spec_frame_step(pre, cmd, payload, post, o),
    ensures
        post.in_body_phase ==> (pre.in_body_phase || spec_command_from_u8(cmd) == Some(
            MilterCommand::Body,
        )),
{
}

/// No cross-session interference: the transition relation pins every output
/// and every post-state field to the session's own prior state and the frame
/// alone, so two sessions with equal accumulators and phase flags handling
/// equal frames respond, report and evolve identically, however their
/// connections interleave.
pub proof fn lemma_no_cross_session_interference(
    pre1: Session,
    pre2: Session,
    cmd: u8,
    payload: Seq<u8>,
    post1: Session,
    post2: Session,
    o1: FrameOutcome,
    o2: FrameOutcome,
)
    requires
        pre1.in_body_phase == pre2.in_body_phase,
        pre1.in_header_block == pre2.in_header_block,
        pre1.headers@ == pre2.headers@,
        pre1.body@ == pre2.body@,
        spec_frame_step(pre1, cmd, payload, post1, o1),
        spec_frame_step(pre2, cmd, payload, post2, o2),
    ensures
        o1.report.deep_view() == o2.report.deep_view(),
        (match (o1.response, o2.response) {
            (Some(r1), Some(r2)) => r1@ == r2@,
            (None, None) => true,
            _ => false,
        }),
        o1.terminate == o2.terminate,
        post1.in_body_phase == post2.in_body_phase,
        post1.in_header_block == post2.in_header_block,
        post1.headers@ == post2.headers@,
        post1.body@ == post2.body@,
{
    match spec_command_from_u8(cmd) {
        None => {},
        Some(c) => match c {
            MilterCommand::Eoh => {
                if pre1.in_body_phase {
                    let l1 = o1.report.unwrap();
                    let l2 = o2.report.unwrap();
                    assert(l1.deep_view() == l2.deep_view());
                    assert(o1.report.deep_view() == Some(l1.deep_view()));
                    assert(o2.report.deep_view() == Some(l2.deep_view()));
                }
            },
            _ => {},
        },
    }
}

} // verus!
