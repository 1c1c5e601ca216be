use milter_decoder::session::Session;

fn lines_contain(lines: &[Vec<u8>], needle: &[u8]) -> bool {
    lines.iter().any(|l| l.windows(needle.len().max(1)).any(|w| w == needle))
}

fn line_starting(lines: &[Vec<u8>], prefix: &[u8]) -> Option<Vec<u8>> {
    lines.iter().find(|l| l.starts_with(prefix)).cloned()
}

fn run_message(headers: &[(&[u8], &[u8])], body: &[u8]) -> Vec<Vec<u8>> {
    let mut s = Session::new(b"report.test".to_vec());
    for (name, value) in headers {
        let mut payload = name.to_vec();
        payload.push(0);
        payload.extend_from_slice(value);
        let o = s.handle_frame(0x4c, &payload);
        assert!(o.terminate.is_none());
    }
    s.handle_frame(0x42, body);
    let o = s.handle_frame(0x45, &[]);
    o.report.expect("a report at end of message")
}

#[test]
fn report_named_sender() {
    let report = run_message(
        &[
            (b"From", b"Alice Example <alice@example.com>"),
            (b"To", b"bob@example.net"),
            (b"Subject", b"greetings"),
        ],
        b"hello\n",
    );
    assert!(lines_contain(&report, b"from: Alice Example <alice@example.com>"));
    assert!(lines_contain(&report, b"to: bob@example.net"));
    assert!(lines_contain(&report, b"subject: greetings"));
}

#[test]
fn report_missing_addresses_use_placeholder() {
    let report = run_message(&[(b"X-Only", b"header")], b"body\n");
    let from_line = line_starting(&report, b"from: ").expect("from line");
    assert_eq!(from_line, "from: (なし)".as_bytes().to_vec());
    let subject_line = line_starting(&report, b"subject: ").expect("subject line");
    assert_eq!(subject_line, "subject: (なし)".as_bytes().to_vec());
}

#[test]
fn report_content_type_header_echoed() {
    let report = run_message(
        &[
            (b"From", b"a@x"),
            (b"Content-Type", b"text/plain; charset=utf-8"),
            (b"Content-Transfer-Encoding", b"7bit"),
        ],
        b"plain text\n",
    );
    assert!(line_starting(&report, b"content-type: ").is_some());
    assert!(line_starting(&report, b"encoding: ").is_some());
}

#[test]
fn report_multipart_with_attachment() {
    let body = b"--B\nContent-Type: text/plain\n\
\nvisible text\n--B\nContent-Type: application/octet-stream\n\
Content-Disposition: attachment; filename=\"f.bin\"\n\
Content-Transfer-Encoding: base64\n\nAAAA\n--B--\n";
    let report = run_message(
        &[
            (b"From", b"a@x"),
            (b"To", b"b@y"),
            (b"Subject", b"att"),
            (b"MIME-Version", b"1.0"),
            (b"Content-Type", b"multipart/mixed; boundary=\"B\""),
        ],
        body,
    );
    assert!(lines_contain(&report, b"multipart: yes"));
    assert!(lines_contain(&report, b"text parts: 1"));
    // The multipart container itself counts as a non-text part, beside the
    // attachment.
    assert!(lines_contain(&report, b"non-text parts: 2"));
    assert!(lines_contain(&report, b"visible text"));
    assert!(lines_contain(&report, b"filename=f.bin"));
    assert!(line_starting(&report, b"non-text part (1): ").is_some());
    assert!(line_starting(&report, b"non-text part (2): ").is_some());
}

#[test]
fn report_message_dump_marks_nul_bytes() {
    let report = run_message(&[(b"From", b"a@x")], b"ab\0cd\n");
    assert!(lines_contain(&report, b"ab<NUL>cd"));
}

#[test]
fn parser_accepts_blank_message_rejects_empty_input() {
    // Even a headerless transaction reassembles to at least a blank line,
    // which this parser still accepts; only truly empty input fails.
    let mut s = Session::new(b"report.test".to_vec());
    s.handle_frame(0x42, b"");
    let o = s.handle_frame(0x45, &[]);
    let report = o.report.expect("a report at end of message");
    assert!(report.len() > 1);
    assert!(!milter_decoder::mime::mail_parses(b""));
}

#[test]
fn two_sessions_report_identically() {
    let r1 = run_message(&[(b"From", b"a@x"), (b"Subject", b"s")], b"same body\n");
    let r2 = run_message(&[(b"From", b"a@x"), (b"Subject", b"s")], b"same body\n");
    assert_eq!(r1, r2);
}
