use milter_decoder::config::{parse_config, parse_u64};
use milter_decoder::frame::{be32_decode, decode_frame, encode_frame};
use milter_decoder::message::{normalize_crlf, reassemble_message, visualize_nul};
use milter_decoder::milter::decode_optneg;
use milter_decoder::milter_command::{MilterCommand, MilterMacro};
use milter_decoder::session::{Session, TermReason};

fn fresh_session() -> Session {
    Session::new(b"peer.test:12345".to_vec())
}

#[test]
fn frame_round_trip() {
    let payload = b"From\0a@x".to_vec();
    let encoded = encode_frame(0x4c, &payload);
    assert_eq!(&encoded[..4], &[0, 0, 0, 9]);
    assert_eq!(encoded[4], 0x4c);
    let decoded = decode_frame(&encoded).expect("round trip");
    assert_eq!(decoded.0, 0x4c);
    assert_eq!(decoded.1, payload);
}

#[test]
fn frame_round_trip_empty_payload() {
    let encoded = encode_frame(0x45, &[]);
    assert_eq!(encoded, vec![0, 0, 0, 1, 0x45]);
    let decoded = decode_frame(&encoded).expect("round trip");
    assert_eq!(decoded.0, 0x45);
    assert!(decoded.1.is_empty());
}

#[test]
fn frame_decode_rejects_truncation() {
    assert!(decode_frame(&[0, 0, 0]).is_none());
    assert!(decode_frame(&[0, 0, 0, 2, 0x42]).is_none());
    assert!(decode_frame(&[0, 0, 0, 0, 0x42]).is_none());
}

#[test]
fn be32_reads_big_endian() {
    assert_eq!(be32_decode(0, 0, 0, 13), 13);
    assert_eq!(be32_decode(0xde, 0xad, 0xbe, 0xef), 0xdead_beef);
}

#[test]
fn handshake_response_bytes() {
    // Version 6, all seven actions, protocol mask 0x3F.
    let mut payload = Vec::new();
    payload.extend_from_slice(&6u32.to_be_bytes());
    payload.extend_from_slice(&0x7fu32.to_be_bytes());
    payload.extend_from_slice(&0x3fu32.to_be_bytes());
    let mut s = fresh_session();
    let o = s.handle_frame(0x4f, &payload);
    let expected = vec![
        0x00, 0x00, 0x00, 0x0d, 0x4f, 0x00, 0x00, 0x00, 0x06, 0x00, 0x00, 0x00, 0x7f, 0x00, 0x00,
        0x00, 0x0f,
    ];
    assert_eq!(o.response.expect("optneg response"), expected);
    assert!(o.terminate.is_none());
    assert!(o.report.is_none());
    let d = o.optneg.expect("decoded negotiation");
    assert_eq!(d.request.version, 6);
    assert_eq!(d.request.actions, 0x7f);
    assert_eq!(d.request.protocol, 0x3f);
    assert_eq!(d.reply.version, 6);
    assert_eq!(d.reply.actions, 0x7f);
    assert_eq!(d.reply.protocol, 0x0f);
    assert_eq!(
        d.action_names,
        vec![
            "ADD_HEADERS",
            "CHANGE_BODY",
            "ADD_RECIPIENTS",
            "DELETE_RECIPIENTS",
            "QUARANTINE",
            "REPLACE_HEADERS",
            "CHANGE_REPLY",
        ]
    );
    assert_eq!(
        d.protocol_names,
        vec!["NO_CONNECT", "NO_HELO", "NO_ENVFROM", "NO_ENVRCPT", "NO_BODY", "NO_HDRS"]
    );
}

#[test]
fn optneg_preserves_other_protocol_bits() {
    let d = decode_optneg(&[0, 0, 0, 6, 0, 0, 0, 0, 0, 0, 0, 0xff]).expect("valid payload");
    assert_eq!(d.reply.protocol, 0xcf);
    assert_eq!(d.reply.protocol & 0x30, 0);
}

#[test]
fn optneg_short_payload_terminates() {
    let mut s = fresh_session();
    let o = s.handle_frame(0x4f, &[0, 0, 0, 6, 0, 0]);
    assert_eq!(o.terminate, Some(TermReason::NegotiationMalformed));
    assert!(o.response.is_none());
}

#[test]
fn unknown_command_terminates() {
    let mut s = fresh_session();
    let o = s.handle_frame(0x5a, &[]);
    assert_eq!(o.terminate, Some(TermReason::UnknownCommand(0x5a)));
    assert!(o.response.is_none());
    assert!(o.report.is_none());
}

#[test]
fn connect_and_helo_reply_continue() {
    let mut s = fresh_session();
    let connect_payload = b"mx.example\0\x04\x00\x19host.example\0";
    let o1 = s.handle_frame(0x43, connect_payload);
    assert_eq!(o1.response.expect("connect reply"), vec![0, 0, 0, 1, 0x06]);
    let o2 = s.handle_frame(0x48, b"host.example");
    assert_eq!(o2.response.expect("helo reply"), vec![0, 0, 0, 1, 0x06]);
    assert!(o1.terminate.is_none() && o2.terminate.is_none());
}

#[test]
fn eoh_without_body_continues_without_report() {
    let mut s = fresh_session();
    s.handle_frame(0x4c, b"From\0a@x");
    s.handle_frame(0x4c, b"To\0b@y");
    s.handle_frame(0x4c, b"Subject\0hi");
    assert_eq!(s.headers.len(), 3);
    let o = s.handle_frame(0x45, &[]);
    assert_eq!(o.response.expect("eoh reply"), vec![0, 0, 0, 1, 0x06]);
    assert!(o.report.is_none());
    assert!(!s.in_body_phase);
    // The accumulators survive: the transaction is still open.
    assert_eq!(s.headers.len(), 3);
}

fn lines_contain(lines: &[Vec<u8>], needle: &[u8]) -> bool {
    lines.iter().any(|l| l.windows(needle.len().max(1)).any(|w| w == needle))
}

#[test]
fn full_message_reports_and_resets() {
    let mut s = fresh_session();
    s.handle_frame(0x4c, b"From\0a@x");
    s.handle_frame(0x4c, b"To\0b@y");
    s.handle_frame(0x4c, b"Subject\0hi");
    let ob = s.handle_frame(0x42, b"Hello\nWorld\n");
    assert!(ob.response.is_none());
    assert!(s.in_body_phase);
    let o = s.handle_frame(0x45, &[]);
    assert_eq!(o.response.expect("accept reply"), vec![0, 0, 0, 1, 0x61]);
    let report = o.report.expect("end-of-message report");
    assert!(lines_contain(&report, b"from: a@x"));
    assert!(lines_contain(&report, b"to: b@y"));
    assert!(lines_contain(&report, b"subject: hi"));
    assert!(lines_contain(&report, b"text parts: 1"));
    assert!(lines_contain(&report, b"multipart: no"));
    assert!(report.contains(&b"text body (1): Hello\r\nWorld\r\n".to_vec()));
    // Per-transaction state is reset; the session stays open.
    assert!(!s.in_body_phase);
    assert_eq!(s.headers.len(), 0);
    assert!(s.body.is_empty());
    // A second end-of-headers now elicits CONTINUE again.
    let o2 = s.handle_frame(0x45, &[]);
    assert_eq!(o2.response.expect("eoh reply"), vec![0, 0, 0, 1, 0x06]);
    assert!(o2.report.is_none());
}

#[test]
fn header_preservation_in_reassembly() {
    let mut s = fresh_session();
    s.handle_frame(0x4c, b"Received\0one");
    s.handle_frame(0x4c, b"X-Test\0y");
    s.handle_frame(0x4c, b"Received\0two");
    let msg = reassemble_message(&s.headers, &s.body);
    assert_eq!(
        msg,
        b"Received: one\r\nReceived: two\r\nX-Test: y\r\n\r\n".to_vec()
    );
}

#[test]
fn header_fields_are_trimmed() {
    // Whitespace is trimmed first, then trailing NULs: a space that the
    // NUL stripping uncovers stays, exactly as received.
    let mut s = fresh_session();
    s.handle_frame(0x4c, b"  From \0 a@x \0\0");
    let msg = reassemble_message(&s.headers, &s.body);
    assert_eq!(msg, b"From: a@x \r\n\r\n".to_vec());
}

#[test]
fn body_crlf_canonicalisation() {
    assert_eq!(normalize_crlf(b"a\nb\r\nc\n"), b"a\r\nb\r\nc\r\n".to_vec());
    assert_eq!(normalize_crlf(b""), b"".to_vec());
    assert_eq!(normalize_crlf(b"\n"), b"\r\n".to_vec());
    // Idempotence on an already canonical text.
    let once = normalize_crlf(b"mixed\nendings\r\nhere");
    let twice = normalize_crlf(&once);
    assert_eq!(once, twice);
}

#[test]
fn body_chunks_concatenate() {
    let mut s = fresh_session();
    s.handle_frame(0x42, b"first ");
    s.handle_frame(0x42, b"second");
    assert_eq!(s.body, b"first second".to_vec());
    assert!(!s.in_header_block);
}

#[test]
fn data_macros_decode_and_mark_header_block() {
    let mut s = fresh_session();
    assert!(!s.in_header_block);
    let o = s.handle_frame(0x44, b"Tj\0mail.example\0i\0QID1\0");
    assert!(s.in_header_block);
    assert_eq!(o.macro_phase, Some(MilterMacro::Soh));
    assert_eq!(o.macros.len(), 2);
    assert_eq!(o.macros[0].0, b"MACRO_Hostname".to_vec());
    assert_eq!(o.macros[0].1, b"mail.example".to_vec());
    assert_eq!(o.macros[1].0, b"MACRO_QueueId".to_vec());
    assert_eq!(o.macros[1].1, b"QID1".to_vec());
    assert!(o.response.is_none());
}

#[test]
fn data_macros_vendor_names() {
    let mut s = fresh_session();
    let o = s.handle_frame(0x44, b"C{auth_type}\0plain\0");
    assert!(!s.in_header_block);
    assert_eq!(o.macro_phase, Some(MilterMacro::Connect));
    assert_eq!(o.macros.len(), 1);
    assert_eq!(o.macros[0].0, b"MACRO_Vender(auth_type)".to_vec());
    assert_eq!(o.macros[0].1, b"plain".to_vec());
}

#[test]
fn data_macros_skip_odd_leftover() {
    let mut s = fresh_session();
    let o = s.handle_frame(0x44, b"Cj\0value\0leftover");
    assert_eq!(o.macros.len(), 1);
    assert_eq!(o.macros[0].1, b"value".to_vec());
}

#[test]
fn data_macros_empty_payload() {
    let mut s = fresh_session();
    let o = s.handle_frame(0x44, b"");
    assert_eq!(o.macro_phase, None);
    assert!(o.macros.is_empty());
    assert!(!s.in_header_block);
}

#[test]
fn other_commands_dump_payload() {
    let mut s = fresh_session();
    let o = s.handle_frame(0x41, &[0xde, 0xad]);
    assert_eq!(o.dump.expect("hex dump"), b"DE AD".to_vec());
    assert!(o.response.is_none());
    let o2 = s.handle_frame(0x51, &[]);
    assert!(o2.dump.is_none());
    assert!(o2.response.is_none());
}

#[test]
fn visualize_nul_marks_zero_bytes() {
    assert_eq!(visualize_nul(b"a\0b"), b"a<NUL>b".to_vec());
    assert_eq!(visualize_nul(b""), b"".to_vec());
}

#[test]
fn command_tables() {
    assert_eq!(MilterCommand::from_u8(b'O'), Some(MilterCommand::OptNeg));
    assert_eq!(MilterCommand::from_u8(b'E'), Some(MilterCommand::Eoh));
    assert_eq!(MilterCommand::from_u8(0x00), None);
    assert_eq!(MilterCommand::Eoh.as_str(), "SMFIC_EOH");
    assert_eq!(MilterCommand::Eoh.as_str_eoh(true), "SMFIC_BODYEOB");
    assert_eq!(MilterCommand::Eoh.as_str_eoh(false), "SMFIC_EOH");
    assert_eq!(MilterCommand::Eom.as_str_eoh(false), "SMFIC_EOH");
    assert_eq!(MilterMacro::from_u8(b'T'), MilterMacro::Soh);
    assert_eq!(MilterMacro::from_u8(0x21), MilterMacro::Unknown(0x21));
    assert_eq!(MilterMacro::Vender.as_str(), "MACRO_Vender");
}

#[test]
fn config_directives() {
    let c = parse_config(b"Listen 192.168.0.1:4000\nClient_timeout 60\n");
    assert_eq!(c.address, b"192.168.0.1:4000".to_vec());
    assert_eq!(c.client_timeout, 60);
}

#[test]
fn config_bare_port_is_dual_stack() {
    let c = parse_config(b"  Listen 8899  \r\n");
    assert_eq!(c.address, b"[::]:8899".to_vec());
    assert_eq!(c.client_timeout, 30);
}

#[test]
fn config_defaults() {
    let c = parse_config(b"");
    assert_eq!(c.address, b"[::]:8898".to_vec());
    assert_eq!(c.client_timeout, 30);
}

#[test]
fn config_ignores_unknown_and_invalid() {
    let c = parse_config(b"Hostname x\nClient_timeout abc\nClient_timeout 45\nNonsense\n");
    assert_eq!(c.address, b"[::]:8898".to_vec());
    assert_eq!(c.client_timeout, 45);
}

#[test]
fn config_last_directive_wins() {
    let c = parse_config(b"Listen 1.2.3.4:1\nListen 5.6.7.8:2\n");
    assert_eq!(c.address, b"5.6.7.8:2".to_vec());
}

#[test]
fn parse_u64_accepts_what_std_accepts() {
    assert_eq!(parse_u64(b"0"), Some(0));
    assert_eq!(parse_u64(b"+10"), Some(10));
    assert_eq!(parse_u64(b"18446744073709551615"), Some(u64::MAX));
    assert_eq!(parse_u64(b"18446744073709551616"), None);
    assert_eq!(parse_u64(b""), None);
    assert_eq!(parse_u64(b"+"), None);
    assert_eq!(parse_u64(b"1a"), None);
    assert_eq!(parse_u64(b"-1"), None);
}

#[test]
fn abort_leaves_transaction_state_alone() {
    // Receipt of ABORT is logged like any other recognized command and does
    // not clear the accumulators.
    let mut s = fresh_session();
    s.handle_frame(0x4c, b"From\0a@x");
    s.handle_frame(0x42, b"body");
    let o = s.handle_frame(0x41, &[]);
    assert!(o.response.is_none());
    assert!(o.terminate.is_none());
    assert_eq!(s.headers.len(), 1);
    assert_eq!(s.body, b"body".to_vec());
    assert!(s.in_body_phase);
}

#[test]
fn eom_byte_is_logged_only() {
    let mut s = fresh_session();
    let o = s.handle_frame(0x4d, &[0x01]);
    assert!(o.response.is_none());
    assert!(o.terminate.is_none());
    assert_eq!(o.dump.expect("hex dump"), b"01".to_vec());
}

#[test]
fn optneg_response_is_one_well_formed_frame() {
    let mut payload = Vec::new();
    payload.extend_from_slice(&6u32.to_be_bytes());
    payload.extend_from_slice(&0x1fu32.to_be_bytes());
    payload.extend_from_slice(&0x7fu32.to_be_bytes());
    let d = decode_optneg(&payload).expect("valid payload");
    let (cmd, resp_payload) = decode_frame(&d.response).expect("well-formed frame");
    assert_eq!(cmd, 0x4f);
    assert_eq!(resp_payload.len(), 12);
    assert_eq!(be32_decode(resp_payload[0], resp_payload[1], resp_payload[2], resp_payload[3]), 6);
    assert_eq!(
        be32_decode(resp_payload[4], resp_payload[5], resp_payload[6], resp_payload[7]),
        0x1f
    );
    assert_eq!(
        be32_decode(resp_payload[8], resp_payload[9], resp_payload[10], resp_payload[11]),
        0x4f
    );
}
