//! The end-of-message report: the reassembled message is handed to the
//! external MIME parser, and its findings — addresses, subject, content
//! type, part classification, text bodies and attachment details — are
//! rendered as report lines.

use vstd::prelude::*;
use vstd::string::StringSliceAdditionalSpecFns;

use crate::headers::HeaderMap;
use crate::message::{reassemble_message, spec_reassemble, spec_visualize_nul, visualize_nul};
use crate::mime::{
    mail_body_html, mail_body_text, mail_from, mail_header_names, mail_header_value_debug,
    mail_n_parts, mail_parses, mail_part_body_len, mail_part_content_type,
    mail_part_ct_attrs, mail_part_disposition_attrs, mail_part_encoding_debug,
    mail_part_header_names, mail_part_header_value_debug, mail_part_is_text, mail_subject,
    mail_to, mime_body_html, mime_body_text, mime_from, mime_header_names,
    mime_header_value_dbg, mime_n_parts, mime_parses, mime_part_body_len,
    mime_part_content_type, mime_part_ct_attrs, mime_part_disposition_attrs,
    mime_part_encoding_dbg, mime_part_header_names, mime_part_header_value_dbg,
    mime_part_is_text, mime_subject, mime_to,
};
use crate::util::{
    append_bytes, ascii_eq_ci, attr_ci, bytes_eq, copy_bytes, find_ci, lemma_find_ci_props,
    push_dec_u64, spec_ascii_eq_ci, spec_attr_ci, spec_dec_u64, spec_find_ci, spec_to_lower_seq,
    to_lower_bytes,
};

verus! {

/// One rendered mailbox: `name <addr>` when a display name exists, else the
/// bare address; missing fields render as empty.
pub open spec fn spec_render_mailbox(mb: (Option<Seq<u8>>, Option<Seq<u8>>)) -> Seq<u8> {
    let name = match mb.0 {
        Some(n) => n,
        None => Seq::empty(),
    };
    let addr = match mb.1 {
        Some(a) => a,
        None => Seq::empty(),
    };
    if name.len() > 0 {
        name + " <".spec_bytes() + addr + ">".spec_bytes()
    } else {
        addr
    }
}

/// A mailbox list joined by `", "`.
pub open spec fn spec_render_mailbox_list(l: Seq<(Option<Seq<u8>>, Option<Seq<u8>>)>) -> Seq<u8>
    decreases l.len(),
{
    if l.len() == 0 {
        Seq::empty()
    } else if l.len() == 1 {
        spec_render_mailbox(l[0])
    } else {
        spec_render_mailbox_list(l.drop_last()) + ", ".spec_bytes() + spec_render_mailbox(l.last())
    }
}

/// An address header rendering; a missing header renders as the placeholder.
pub open spec fn spec_render_mailboxes(o: Option<Seq<(Option<Seq<u8>>, Option<Seq<u8>>)>>) -> Seq<
    u8,
> {
    match o {
        None => "(なし)".spec_bytes(),
        Some(l) => spec_render_mailbox_list(l),
    }
}

fn render_mailbox(name: &Option<Vec<u8>>, addr: &Option<Vec<u8>>) -> (r: Vec<u8>)
    ensures
        r@ == spec_render_mailbox((name.deep_view(), addr.deep_view())),
{
    let mut out: Vec<u8> = Vec::new();
    let has_name = match name {
        Some(n) => n.len() > 0,
        None => false,
    };
    if has_name {
        match name {
            Some(n) => append_bytes(&mut out, n.as_slice()),
            None => (),
        }
        append_bytes(&mut out, " <".as_bytes());
        match addr {
            Some(a) => append_bytes(&mut out, a.as_slice()),
            None => (),
        }
        append_bytes(&mut out, ">".as_bytes());
        proof {
            assert(out@ =~= spec_render_mailbox((name.deep_view(), addr.deep_view())));
        }
    } else {
        match addr {
            Some(a) => append_bytes(&mut out, a.as_slice()),
            None => (),
        }
        proof {
            assert(out@ =~= spec_render_mailbox((name.deep_view(), addr.deep_view())));
        }
    }
    out
}

fn render_mailboxes(o: &Option<Vec<(Option<Vec<u8>>, Option<Vec<u8>>)>>) -> (r: Vec<u8>)
    ensures
        r@ == spec_render_mailboxes(o.deep_view()),
{
    match o {
        None => copy_bytes("(なし)".as_bytes()),
        Some(l) => {
            let ghost lv = l.deep_view();
            let mut out: Vec<u8> = Vec::new();
            let mut i: usize = 0;
            proof {
                assert(lv.subrange(0, 0).len() == 0);
                assert(out@ =~= spec_render_mailbox_list(lv.subrange(0, 0)));
            }
            while i < l.len()
                invariant
                    i <= l.len(),
                    lv == l.deep_view(),
                    lv.len() == l@.len(),
                    out@ == spec_render_mailbox_list(lv.subrange(0, i as int)),
                decreases l.len() - i,
            {
                let ghost o0 = out@;
                if i > 0 {
                    append_bytes(&mut out, ", ".as_bytes());
                }
                let mb = render_mailbox(&l[i].0, &l[i].1);
                append_bytes(&mut out, mb.as_slice());
                proof {
                    assert(l@[i as int].0.deep_view() == lv[i as int].0);
                    assert(l@[i as int].1.deep_view() == lv[i as int].1);
                    let pre = lv.subrange(0, i as int);
                    let cur = lv.subrange(0, i + 1 as int);
                    assert(cur.drop_last() =~= pre);
                    assert(cur.last() == lv[i as int]);
                    if i == 0 {
                        assert(out@ =~= spec_render_mailbox_list(cur));
                    } else {
                        assert(out@ =~= spec_render_mailbox_list(pre) + ", ".spec_bytes()
                            + spec_render_mailbox(lv[i as int]));
                        assert(out@ =~= spec_render_mailbox_list(cur));
                    }
                }
                i += 1;
            }
            proof {
                assert(lv.subrange(0, lv.len() as int) =~= lv);
            }
            out
        },
    }
}

/// The `from: ` report line.
pub open spec fn spec_from_line(msg: Seq<u8>) -> Seq<u8> {
    "from: ".spec_bytes() + spec_render_mailboxes(mime_from(msg))
}

/// The `to: ` report line.
pub open spec fn spec_to_line(msg: Seq<u8>) -> Seq<u8> {
    "to: ".spec_bytes() + spec_render_mailboxes(mime_to(msg))
}

/// The `subject: ` report line; a missing subject renders as the placeholder.
pub open spec fn spec_subject_line(msg: Seq<u8>) -> Seq<u8> {
    "subject: ".spec_bytes() + (match mime_subject(msg) {
        Some(s) => s,
        None => "(なし)".spec_bytes(),
    })
}

/// The labelled line for the first message header matching `key`, if any.
pub open spec fn spec_optional_header_line(msg: Seq<u8>, key: Seq<u8>, label: Seq<u8>) -> Option<
    Seq<u8>,
> {
    let names = mime_header_names(msg);
    let k = spec_find_ci(names, key);
    if k < names.len() {
        Some(
            label + (match mime_header_value_dbg(msg, k) {
                Some(v) => v,
                None => Seq::empty(),
            }),
        )
    } else {
        None
    }
}

fn optional_header_line(msg: &[u8], key: &[u8], label: &[u8]) -> (r: Option<Vec<u8>>)
    ensures
        r.deep_view() == spec_optional_header_line(msg@, key@, label@),
{
    let names = mail_header_names(msg);
    let k = find_ci(&names, key);
    proof {
        lemma_find_ci_props(names.deep_view(), key@);
        assert(names.deep_view().len() == names@.len());
    }
    if k < names.len() {
        let mut l = copy_bytes(label);
        match mail_header_value_debug(msg, k) {
            Some(v) => {
                append_bytes(&mut l, v.as_slice());
            },
            None => (),
        }
        Some(l)
    } else {
        None
    }
}

/// Whether the i-th part is a text part that is not itself a multipart
/// container; only such parts count as text parts of the report.
pub open spec fn spec_part_selected(msg: Seq<u8>, i: int) -> bool {
    mime_part_is_text(msg, i) == Some(true) && !(match mime_part_content_type(msg, i) {
        Some(Some(ct)) => spec_ascii_eq_ci(ct.0, "multipart".spec_bytes()),
        _ => false,
    })
}

fn part_selected(msg: &[u8], i: usize) -> (r: bool)
    ensures
        r == spec_part_selected(msg@, i as int),
{
    let is_text = match mail_part_is_text(msg, i) {
        Some(b) => b,
        None => false,
    };
    if !is_text {
        return false;
    }
    let ct = mail_part_content_type(msg, i);
    match &ct {
        Some(Some((t, st))) => {
            proof {
                assert(t.deep_view() =~= t@);
                assert(mime_part_content_type(msg@, i as int) == Some(
                    Some((t@, st.deep_view())),
                ));
            }
            !ascii_eq_ci(t.as_slice(), "multipart".as_bytes())
        },
        Some(None) => {
            proof {
                assert(mime_part_content_type(msg@, i as int) == Some(
                    None::<(Seq<u8>, Option<Seq<u8>>)>,
                ));
            }
            true
        },
        None => true,
    }
}

/// How many parts from index `i` on are report text parts.
pub open spec fn spec_text_count(msg: Seq<u8>, i: int) -> int
    decreases mime_n_parts(msg) - i,
{
    if 0 <= i < mime_n_parts(msg) {
        (if spec_part_selected(msg, i) {
            1int
        } else {
            0int
        }) + spec_text_count(msg, i + 1)
    } else {
        0
    }
}

/// How many parts from index `i` on are non-text parts.
pub open spec fn spec_non_text_count(msg: Seq<u8>, i: int) -> int
    decreases mime_n_parts(msg) - i,
{
    if 0 <= i < mime_n_parts(msg) {
        (if mime_part_is_text(msg, i) == Some(false) {
            1int
        } else {
            0int
        }) + spec_non_text_count(msg, i + 1)
    } else {
        0
    }
}

/// The subtype that decides whether a text part's body is reported: the
/// lowered Content-Type subtype; a part without any Content-Type defaults
/// to `plain`, a Content-Type without subtype to none.
pub open spec fn spec_text_subtype(msg: Seq<u8>, i: int) -> Option<Seq<u8>> {
    match mime_part_content_type(msg, i) {
        Some(Some(ct)) => match ct.1 {
            Some(st) => Some(spec_to_lower_seq(st)),
            None => None,
        },
        Some(None) => Some("plain".spec_bytes()),
        None => None,
    }
}

/// The body lines of the t-th text part: its decoded text and its decoded
/// HTML, each when the parser offers one.
pub open spec fn spec_text_part_lines(msg: Seq<u8>, t: int) -> Seq<Seq<u8>> {
    (match mime_body_text(msg, t) {
        Some(b) => seq![
            "text body (".spec_bytes() + spec_dec_u64((t + 1) as u64) + "): ".spec_bytes() + b,
        ],
        None => Seq::empty(),
    }) + (match mime_body_html(msg, t) {
        Some(h) => seq![
            "html body (".spec_bytes() + spec_dec_u64((t + 1) as u64) + "): ".spec_bytes() + h,
        ],
        None => Seq::empty(),
    })
}

/// All text body lines, walking the parts from `i` with `t` text parts
/// already seen; bodies are reported only for subtype plain or html.
pub open spec fn spec_text_lines(msg: Seq<u8>, i: int, t: int) -> Seq<Seq<u8>>
    decreases mime_n_parts(msg) - i,
{
    if 0 <= i < mime_n_parts(msg) {
        if spec_part_selected(msg, i) {
            (if spec_text_subtype(msg, i) == Some("plain".spec_bytes()) || spec_text_subtype(
                msg,
                i,
            ) == Some("html".spec_bytes()) {
                spec_text_part_lines(msg, t)
            } else {
                Seq::empty()
            }) + spec_text_lines(msg, i + 1, t + 1)
        } else {
            spec_text_lines(msg, i + 1, t)
        }
    } else {
        Seq::empty()
    }
}

/// The detail line of one non-text part: content type, transfer encoding,
/// file name (Content-Disposition `filename`, else Content-Type `name`,
/// else a placeholder) and decoded size.
pub open spec fn spec_non_text_line(msg: Seq<u8>, i: int, ord: int) -> Seq<u8> {
    let ct = match mime_part_header_names(msg, i) {
        Some(ns) => {
            let k = spec_find_ci(ns, "content-type".spec_bytes());
            if k < ns.len() {
                match mime_part_header_value_dbg(msg, i, k) {
                    Some(v) => v,
                    None => Seq::empty(),
                }
            } else {
                "(不明)".spec_bytes()
            }
        },
        None => "(不明)".spec_bytes(),
    };
    let enc = match mime_part_encoding_dbg(msg, i) {
        Some(e) => e,
        None => Seq::empty(),
    };
    let fname = match (match mime_part_disposition_attrs(msg, i) {
        Some(attrs) => spec_attr_ci(attrs, "filename".spec_bytes()),
        None => None,
    }) {
        Some(f) => f,
        None => match (match mime_part_ct_attrs(msg, i) {
            Some(attrs) => spec_attr_ci(attrs, "name".spec_bytes()),
            None => None,
        }) {
            Some(f) => f,
            None => "(ファイル名なし)".spec_bytes(),
        },
    };
    let size = match mime_part_body_len(msg, i) {
        Some(n) => n,
        None => 0,
    };
    "non-text part (".spec_bytes() + spec_dec_u64((ord + 1) as u64) + "): content_type=".spec_bytes()
        + ct + ", encoding=".spec_bytes() + enc + ", filename=".spec_bytes() + fname
        + ", size=".spec_bytes() + spec_dec_u64(size as u64) + " bytes".spec_bytes()
}

/// All non-text detail lines, walking the parts from `i` with `ord`
/// non-text parts already reported.
pub open spec fn spec_non_text_lines(msg: Seq<u8>, i: int, ord: int) -> Seq<Seq<u8>>
    decreases mime_n_parts(msg) - i,
{
    if 0 <= i < mime_n_parts(msg) {
        if mime_part_is_text(msg, i) == Some(false) {
            seq![spec_non_text_line(msg, i, ord)] + spec_non_text_lines(msg, i + 1, ord + 1)
        } else {
            spec_non_text_lines(msg, i + 1, ord)
        }
    } else {
        Seq::empty()
    }
}

/// Zero or one lines.
pub open spec fn spec_opt_line(o: Option<Seq<u8>>) -> Seq<Seq<u8>> {
    match o {
        Some(l) => seq![l],
        None => Seq::empty(),
    }
}

/// The whole report of a successfully parsed message.
pub open spec fn spec_parsed_report(msg: Seq<u8>) -> Seq<Seq<u8>> {
    seq![spec_from_line(msg), spec_to_line(msg), spec_subject_line(msg)] + spec_opt_line(
        spec_optional_header_line(msg, "Content-Type".spec_bytes(), "content-type: ".spec_bytes()),
    ) + spec_opt_line(
        spec_optional_header_line(
            msg,
            "Content-Transfer-Encoding".spec_bytes(),
            "encoding: ".spec_bytes(),
        ),
    ) + seq![
        if mime_n_parts(msg) > 1 {
            "multipart: yes".spec_bytes()
        } else {
            "multipart: no".spec_bytes()
        },
        "text parts: ".spec_bytes() + spec_dec_u64(spec_text_count(msg, 0) as u64),
        "non-text parts: ".spec_bytes() + spec_dec_u64(spec_non_text_count(msg, 0) as u64),
    ] + spec_text_lines(msg, 0, 0) + spec_non_text_lines(msg, 0, 0)
}

/// The whole report for the accumulated headers and body: the reassembled
/// message with NULs made visible, then either the parsed findings or a
/// parse error line.
pub open spec fn spec_report(m: Seq<(Seq<u8>, Seq<Seq<u8>>)>, body: Seq<u8>) -> Seq<Seq<u8>> {
    let msg = spec_reassemble(m, body);
    seq![spec_visualize_nul(msg)] + (if mime_parses(msg) {
        spec_parsed_report(msg)
    } else {
        seq!["parse error".spec_bytes()]
    })
}

fn count_parts(msg: &[u8]) -> (r: (usize, usize))
    ensures
        r.0 as int == spec_text_count(msg@, 0),
        r.1 as int == spec_non_text_count(msg@, 0),
{
    let n = mail_n_parts(msg);
    let mut tc: usize = 0;
    let mut ntc: usize = 0;
    let mut i: usize = 0;
    while i < n
        invariant
            i <= n,
            n as int == mime_n_parts(msg@),
            tc <= i,
            ntc <= i,
            spec_text_count(msg@, 0) == tc as int + spec_text_count(msg@, i as int),
            spec_non_text_count(msg@, 0) == ntc as int + spec_non_text_count(msg@, i as int),
        decreases n - i,
    {
        if part_selected(msg, i) {
            tc += 1;
        }
        let nt = match mail_part_is_text(msg, i) {
            Some(b) => !b,
            None => false,
        };
        if nt {
            ntc += 1;
        }
        i += 1;
    }
    (tc, ntc)
}

fn text_subtype_reportable(msg: &[u8], i: usize) -> (r: bool)
    ensures
        r == (spec_text_subtype(msg@, i as int) == Some("plain".spec_bytes()) || spec_text_subtype(
            msg@,
            i as int,
        ) == Some("html".spec_bytes())),
{
    match mail_part_content_type(msg, i) {
        Some(Some((_t, st))) => match st {
            Some(sub) => {
                let l = to_lower_bytes(sub.as_slice());
                let is_plain = bytes_eq(l.as_slice(), "plain".as_bytes());
                let is_html = bytes_eq(l.as_slice(), "html".as_bytes());
                proof {
                    assert(spec_text_subtype(msg@, i as int) == Some(spec_to_lower_seq(sub@)));
                }
                is_plain || is_html
            },
            None => {
                proof {
                    assert(spec_text_subtype(msg@, i as int) is None);
                }
                false
            },
        },
        Some(None) => {
            proof {
                assert(spec_text_subtype(msg@, i as int) == Some("plain".spec_bytes()));
                assert("plain"@ != "html"@) by {
                    reveal_strlit("plain");
                    reveal_strlit("html");
                }
            }
            true
        },
        None => false,
    }
}

fn labelled_body_line(label: &[u8], t: usize, body: &[u8]) -> (r: Vec<u8>)
    requires
        t < usize::MAX,
    ensures
        r@ == label@ + spec_dec_u64((t + 1) as u64) + "): ".spec_bytes() + body@,
{
    let mut l = copy_bytes(label);
    push_dec_u64(&mut l, (t as u64) + 1);
    append_bytes(&mut l, "): ".as_bytes());
    append_bytes(&mut l, body);
    proof {
        assert(l@ =~= label@ + spec_dec_u64((t + 1) as u64) + "): ".spec_bytes() + body@);
    }
    l
}

fn text_body_lines(msg: &[u8]) -> (r: Vec<Vec<u8>>)
    ensures
        r.deep_view() == spec_text_lines(msg@, 0, 0),
{
    let n = mail_n_parts(msg);
    let mut out: Vec<Vec<u8>> = Vec::new();
    let mut i: usize = 0;
    let mut t: usize = 0;
    proof {
        assert(out.deep_view() + spec_text_lines(msg@, 0, 0) =~= spec_text_lines(msg@, 0, 0));
    }
    while i < n
        invariant
            i <= n,
            t <= i,
            n as int == mime_n_parts(msg@),
            spec_text_lines(msg@, 0, 0) == out.deep_view() + spec_text_lines(
                msg@,
                i as int,
                t as int,
            ),
        decreases n - i,
    {
        let ghost o0 = out.deep_view();
        if part_selected(msg, i) {
            if text_subtype_reportable(msg, i) {
                let ghost chunk = spec_text_part_lines(msg@, t as int);
                match mail_body_text(msg, t) {
                    Some(b) => {
                        proof {
                            assert(b.deep_view() =~= b@);
                            assert(mime_body_text(msg@, t as int) == Some(b@));
                        }
                        let line = labelled_body_line("text body (".as_bytes(), t, b.as_slice());
                        out.push(line);
                        proof {
                            assert(out.deep_view() =~~= o0.push(
                                "text body (".spec_bytes() + spec_dec_u64((t + 1) as u64)
                                    + "): ".spec_bytes() + b@,
                            ));
                        }
                    },
                    None => {
                        proof {
                            assert(mime_body_text(msg@, t as int) is None);
                        }
                    },
                }
                let ghost o1 = out.deep_view();
                match mail_body_html(msg, t) {
                    Some(h) => {
                        proof {
                            assert(h.deep_view() =~= h@);
                            assert(mime_body_html(msg@, t as int) == Some(h@));
                        }
                        let line = labelled_body_line("html body (".as_bytes(), t, h.as_slice());
                        out.push(line);
                        proof {
                            assert(out.deep_view() =~~= o1.push(
                                "html body (".spec_bytes() + spec_dec_u64((t + 1) as u64)
                                    + "): ".spec_bytes() + h@,
                            ));
                        }
                    },
                    None => {
                        proof {
                            assert(mime_body_html(msg@, t as int) is None);
                        }
                    },
                }
                proof {
                    assert(out.deep_view() =~= o0 + chunk);
                    assert(out.deep_view() + spec_text_lines(msg@, i + 1, t + 1 as int) =~= o0
                        + spec_text_lines(msg@, i as int, t as int));
                }
            } else {
                proof {
                    assert(out.deep_view() + spec_text_lines(msg@, i + 1, t + 1 as int) =~= o0
                        + spec_text_lines(msg@, i as int, t as int));
                }
            }
            t += 1;
        } else {
            proof {
                assert(out.deep_view() + spec_text_lines(msg@, i + 1, t as int) =~= o0
                    + spec_text_lines(msg@, i as int, t as int));
            }
        }
        i += 1;
    }
    proof {
        assert(spec_text_lines(msg@, i as int, t as int) =~= Seq::<Seq<u8>>::empty());
        assert(out.deep_view() + Seq::<Seq<u8>>::empty() =~= out.deep_view());
    }
    out
}

fn non_text_line(msg: &[u8], i: usize, ord: usize) -> (r: Vec<u8>)
    requires
        ord < usize::MAX,
    ensures
        r@ == spec_non_text_line(msg@, i as int, ord as int),
{
    let mut l = copy_bytes("non-text part (".as_bytes());
    push_dec_u64(&mut l, (ord as u64) + 1);
    append_bytes(&mut l, "): content_type=".as_bytes());
    match mail_part_header_names(msg, i) {
        Some(ns) => {
            let k = find_ci(&ns, "content-type".as_bytes());
            proof {
                lemma_find_ci_props(ns.deep_view(), "content-type".spec_bytes());
                assert(ns.deep_view().len() == ns@.len());
            }
            if k < ns.len() {
                match mail_part_header_value_debug(msg, i, k) {
                    Some(v) => append_bytes(&mut l, v.as_slice()),
                    None => (),
                }
            } else {
                append_bytes(&mut l, "(不明)".as_bytes());
            }
        },
        None => {
            append_bytes(&mut l, "(不明)".as_bytes());
        },
    }
    append_bytes(&mut l, ", encoding=".as_bytes());
    match mail_part_encoding_debug(msg, i) {
        Some(e) => append_bytes(&mut l, e.as_slice()),
        None => (),
    }
    append_bytes(&mut l, ", filename=".as_bytes());
    let fname = match mail_part_disposition_attrs(msg, i) {
        Some(attrs) => attr_ci(&attrs, "filename".as_bytes()),
        None => None,
    };
    match fname {
        Some(f) => append_bytes(&mut l, f.as_slice()),
        None => {
            let fname2 = match mail_part_ct_attrs(msg, i) {
                Some(attrs) => attr_ci(&attrs, "name".as_bytes()),
                None => None,
            };
            match fname2 {
                Some(f) => append_bytes(&mut l, f.as_slice()),
                None => append_bytes(&mut l, "(ファイル名なし)".as_bytes()),
            }
        },
    }
    append_bytes(&mut l, ", size=".as_bytes());
    let size = match mail_part_body_len(msg, i) {
        Some(n) => n,
        None => 0,
    };
    push_dec_u64(&mut l, size as u64);
    append_bytes(&mut l, " bytes".as_bytes());
    proof {
        assert(l@ =~= spec_non_text_line(msg@, i as int, ord as int));
    }
    l
}

fn non_text_lines(msg: &[u8]) -> (r: Vec<Vec<u8>>)
    ensures
        r.deep_view() == spec_non_text_lines(msg@, 0, 0),
{
    let n = mail_n_parts(msg);
    let mut out: Vec<Vec<u8>> = Vec::new();
    let mut i: usize = 0;
    let mut ord: usize = 0;
    proof {
        assert(out.deep_view() + spec_non_text_lines(msg@, 0, 0) =~= spec_non_text_lines(
            msg@,
            0,
            0,
        ));
    }
    while i < n
        invariant
            i <= n,
            ord <= i,
            n as int == mime_n_parts(msg@),
            spec_non_text_lines(msg@, 0, 0) == out.deep_view() + spec_non_text_lines(
                msg@,
                i as int,
                ord as int,
            ),
        decreases n - i,
    {
        let ghost o0 = out.deep_view();
        let nt = match mail_part_is_text(msg, i) {
            Some(b) => !b,
            None => false,
        };
        if nt {
            let line = non_text_line(msg, i, ord);
            out.push(line);
            proof {
                assert(out.deep_view() =~~= o0.push(
                    spec_non_text_line(msg@, i as int, ord as int),
                ));
                assert(out.deep_view() + spec_non_text_lines(msg@, i + 1, ord + 1 as int) =~= o0
                    + spec_non_text_lines(msg@, i as int, ord as int));
            }
            ord += 1;
        } else {
            proof {
                assert(out.deep_view() + spec_non_text_lines(msg@, i + 1, ord as int) =~= o0
                    + spec_non_text_lines(msg@, i as int, ord as int));
            }
        }
        i += 1;
    }
    proof {
        assert(spec_non_text_lines(msg@, i as int, ord as int) =~= Seq::<Seq<u8>>::empty());
        assert(out.deep_view() + Seq::<Seq<u8>>::empty() =~= out.deep_view());
    }
    out
}

fn append_lines(dst: &mut Vec<Vec<u8>>, src: Vec<Vec<u8>>)
    ensures
        final(dst).deep_view() == old(dst).deep_view() + src.deep_view(),
{
    let ghost d0 = old(dst).deep_view();
    let ghost s0 = src.deep_view();
    let mut src = src;
    proof {
        assert(s0.skip(0) =~= s0);
        assert(dst.deep_view() =~= d0 + s0.subrange(0, 0));
    }
    let ghost mut taken: int = 0;
    while src.len() > 0
        invariant
            0 <= taken <= s0.len(),
            src.deep_view() == s0.skip(taken),
            dst.deep_view() == d0 + s0.subrange(0, taken),
        decreases src.len(),
    {
        let ghost sv = src@;
        let ghost sdv = src.deep_view();
        proof {
            assert(sdv.len() == sv.len());
            assert(sdv.len() == s0.len() - taken);
            assert(taken < s0.len());
        }
        let v = src.remove(0);
        proof {
            assert(v == sv[0]);
            assert(sdv[0] == sv[0].deep_view());
            assert(v.deep_view() =~= v@);
            assert(v@ == sdv[0]);
            assert(v@ == s0[taken]);
            assert(src.deep_view() =~~= s0.skip(taken + 1)) by {
                assert(src@ =~= sv.skip(1));
                assert forall|k: int| 0 <= k < src@.len() implies #[trigger] src.deep_view()[k]
                    == s0.skip(taken + 1)[k] by {
                    assert(src.deep_view()[k] == src@[k].deep_view());
                    assert(src@[k] == sv[k + 1]);
                    assert(sdv[k + 1] == sv[k + 1].deep_view());
                    assert(sdv[k + 1] == s0.skip(taken)[k + 1]);
                }
            }
        }
        let ghost dv0 = dst@;
        let ghost dpre = dst.deep_view();
        dst.push(v);
        proof {
            let target = d0 + s0.subrange(0, taken + 1);
            assert(dst@ == dv0.push(v));
            assert(dpre.len() == dv0.len());
            assert(dpre.len() == d0.len() + taken);
            assert(dst.deep_view().len() == dst@.len());
            assert(dst.deep_view().len() == target.len());
            assert forall|k: int| 0 <= k < dst@.len() implies #[trigger] dst.deep_view()[k]
                == target[k] by {
                assert(dst.deep_view()[k] == dst@[k].deep_view());
                if k < dv0.len() {
                    assert(dst@[k] == dv0[k]);
                    assert(dpre[k] == dv0[k].deep_view());
                    assert(dpre[k] == (d0 + s0.subrange(0, taken))[k]);
                    if k >= d0.len() {
                        assert((d0 + s0.subrange(0, taken))[k] == s0[k - d0.len()]);
                        assert(target[k] == s0[k - d0.len()]);
                    }
                } else {
                    assert(dst@[k] == v);
                    assert(v.deep_view() == v@);
                    assert(target[k] == s0[taken]);
                }
            }
            assert(dst.deep_view() =~= target);
            taken = taken + 1;
        }
    }
    proof {
        assert(s0.skip(taken).len() == 0);
        assert(taken == s0.len());
        assert(d0 + s0.subrange(0, s0.len() as int) =~= d0 + s0);
    }
}

/// Reassembles the accumulated headers and body into one message, parses it
/// with the external MIME parser, and renders the report: the visualised
/// message, then either the parsed findings (addresses, subject, content
/// type and encoding headers, multipart classification, part counts, text
/// bodies and non-text part details) or a parse error line.
pub fn parse_mail(header_fields: &HeaderMap, body_field: &[u8]) -> (r: Vec<Vec<u8>>)
    ensures
        r.deep_view() == spec_report(header_fields@, body_field@),
{
    let msg = reassemble_message(header_fields, body_field);
    let ghost mv = msg@;
    let mut lines: Vec<Vec<u8>> = Vec::new();
    let vis = visualize_nul(msg.as_slice());
    lines.push(vis);
    proof {
        assert(lines.deep_view() =~~= seq![spec_visualize_nul(mv)]);
    }
    if !mail_parses(msg.as_slice()) {
        lines.push(copy_bytes("parse error".as_bytes()));
        proof {
            assert(lines.deep_view() =~~= spec_report(header_fields@, body_field@));
        }
        return lines;
    }
    let ghost l0 = lines.deep_view();
    let mut from_line = copy_bytes("from: ".as_bytes());
    let from_list = mail_from(msg.as_slice());
    let rendered_from = render_mailboxes(&from_list);
    append_bytes(&mut from_line, rendered_from.as_slice());
    lines.push(from_line);
    let mut to_line = copy_bytes("to: ".as_bytes());
    let to_list = mail_to(msg.as_slice());
    let rendered_to = render_mailboxes(&to_list);
    append_bytes(&mut to_line, rendered_to.as_slice());
    lines.push(to_line);
    let mut subject_line = copy_bytes("subject: ".as_bytes());
    match mail_subject(msg.as_slice()) {
        Some(s) => append_bytes(&mut subject_line, s.as_slice()),
        None => append_bytes(&mut subject_line, "(なし)".as_bytes()),
    }
    lines.push(subject_line);
    proof {
        assert(lines.deep_view() =~~= l0 + seq![
            spec_from_line(mv),
            spec_to_line(mv),
            spec_subject_line(mv),
        ]);
    }
    let ghost l1 = lines.deep_view();
    match optional_header_line(msg.as_slice(), "Content-Type".as_bytes(), "content-type: ".as_bytes()) {
        Some(l) => {
            lines.push(l);
        },
        None => (),
    }
    proof {
        assert(lines.deep_view() =~~= l1 + spec_opt_line(
            spec_optional_header_line(
                mv,
                "Content-Type".spec_bytes(),
                "content-type: ".spec_bytes(),
            ),
        ));
    }
    let ghost l2 = lines.deep_view();
    match optional_header_line(
        msg.as_slice(),
        "Content-Transfer-Encoding".as_bytes(),
        "encoding: ".as_bytes(),
    ) {
        Some(l) => {
            lines.push(l);
        },
        None => (),
    }
    proof {
        assert(lines.deep_view() =~~= l2 + spec_opt_line(
            spec_optional_header_line(
                mv,
                "Content-Transfer-Encoding".spec_bytes(),
                "encoding: ".spec_bytes(),
            ),
        ));
    }
    let ghost l3 = lines.deep_view();
    let n = mail_n_parts(msg.as_slice());
    if n > 1 {
        lines.push(copy_bytes("multipart: yes".as_bytes()));
    } else {
        lines.push(copy_bytes("multipart: no".as_bytes()));
    }
    let (tc, ntc) = count_parts(msg.as_slice());
    let mut tc_line = copy_bytes("text parts: ".as_bytes());
    push_dec_u64(&mut tc_line, tc as u64);
    lines.push(tc_line);
    let mut ntc_line = copy_bytes("non-text parts: ".as_bytes());
    push_dec_u64(&mut ntc_line, ntc as u64);
    lines.push(ntc_line);
    proof {
        assert(lines.deep_view() =~~= l3 + seq![
            if mime_n_parts(mv) > 1 {
                "multipart: yes".spec_bytes()
            } else {
                "multipart: no".spec_bytes()
            },
            "text parts: ".spec_bytes() + spec_dec_u64(spec_text_count(mv, 0) as u64),
            "non-text parts: ".spec_bytes() + spec_dec_u64(spec_non_text_count(mv, 0) as u64),
        ]);
    }
    let tl = text_body_lines(msg.as_slice());
    append_lines(&mut lines, tl);
    let ntl = non_text_lines(msg.as_slice());
    append_lines(&mut lines, ntl);
    proof {
        assert(lines.deep_view() =~= seq![spec_visualize_nul(mv)] + spec_parsed_report(mv));
        assert(lines.deep_view() =~= spec_report(header_fields@, body_field@));
    }
    lines
}

} // verus!
