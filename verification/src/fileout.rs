//! File operations in model output.
//!
//! Two formats are recognized, their findings concatenated in that
//! order: `<file path="...">content</file>` blocks, and
//! `[CREATE_FILE: path]` followed by a fenced code block and
//! `[END_FILE]`. Paths are trimmed of surrounding whitespace. A
//! malformed occurrence is skipped; it never stops the scan.

use vstd::prelude::*;
use crate::text::{
    chars_to_string, find_at, lemma_spec_find, lemma_trim_end_pos, lemma_ws_end, matches_at,
    occurs_at, skip_ws, spec_find, str_to_chars, sub_chars, trim_chars, trim_ws, ws_end,
};

verus! {

/// The kind of a file operation; only creation is supported.
#[derive(Clone, Copy, Debug, PartialEq, Eq, Structural)]
pub enum FileOperationType {
    Create,
}

/// One file the model asked to write: its path and content.
pub struct FileOperation {
    pub path: String,
    pub content: String,
    pub operation_type: FileOperationType,
}

impl DeepView for FileOperation {
    type V = (Seq<char>, Seq<char>);

    open spec fn deep_view(&self) -> (Seq<char>, Seq<char>) {
        (self.path@, self.content@)
    }
}

pub open spec fn file_open_mark() -> Seq<char> {
    "<file"@
}

pub open spec fn path_eq_mark() -> Seq<char> {
    "path=\""@
}

pub open spec fn file_close_mark() -> Seq<char> {
    "</file>"@
}

pub open spec fn create_mark() -> Seq<char> {
    "[CREATE_FILE:"@
}

pub open spec fn rbracket_mark() -> Seq<char> {
    "]"@
}

pub open spec fn fence_mark() -> Seq<char> {
    "```"@
}

pub open spec fn nl_fence_mark() -> Seq<char> {
    "\n```"@
}

pub open spec fn end_file_mark() -> Seq<char> {
    "[END_FILE]"@
}

pub open spec fn quote1_mark() -> Seq<char> {
    "\""@
}

/// The file operations found by the `<file>` scan from `from` on, as
/// (path, content) pairs.
pub open spec fn spec_xml_ops(s: Seq<char>, from: int) -> Seq<(Seq<char>, Seq<char>)>
    decreases s.len() - from, 0int,
{
    let p = spec_find(s, file_open_mark(), from);
    if from < 0 || p < from {
        Seq::empty()
    } else {
        proof {
            lemma_spec_find(s, file_open_mark(), from);
            reveal_strlit("<file");
            reveal_strlit("path=\"");
            reveal_strlit("\"");
            reveal_strlit("</file>");
        }
        let q = ws_end(s, p + file_open_mark().len());
        proof {
            lemma_ws_end(s, p + file_open_mark().len());
        }
        if q == p + file_open_mark().len() || !occurs_at(s, path_eq_mark(), q) {
            spec_xml_ops(s, p + 1)
        } else {
            let nq = spec_find(s, quote1_mark(), q + path_eq_mark().len());
            proof {
                lemma_spec_find(s, quote1_mark(), q + path_eq_mark().len());
            }
            if nq <= q + path_eq_mark().len() {
                spec_xml_ops(s, p + 1)
            } else {
                let w2 = ws_end(s, nq + 1);
                proof {
                    lemma_ws_end(s, nq + 1);
                }
                if w2 >= s.len() || s[w2] != '>' {
                    spec_xml_ops(s, p + 1)
                } else {
                    let c = spec_find(s, file_close_mark(), w2 + 1);
                    proof {
                        lemma_spec_find(s, file_close_mark(), w2 + 1);
                    }
                    if c < w2 + 1 {
                        spec_xml_ops(s, p + 1)
                    } else {
                        let path = trim_ws(s.subrange(q + path_eq_mark().len(), nq));
                        let content = s.subrange(w2 + 1, c);
                        seq![(path, content)] + spec_xml_ops(s, c + file_close_mark().len())
                    }
                }
            }
        }
    }
}

/// The file operations found by the bracket scan from `from` on, as
/// (path, content) pairs.
pub open spec fn spec_bracket_ops(s: Seq<char>, from: int) -> Seq<(Seq<char>, Seq<char>)>
    decreases s.len() - from, 0int,
{
    let p = spec_find(s, create_mark(), from);
    if from < 0 || p < from {
        Seq::empty()
    } else {
        proof {
            lemma_spec_find(s, create_mark(), from);
            reveal_strlit("[CREATE_FILE:");
            reveal_strlit("]");
            reveal_strlit("```");
            reveal_strlit("\n```");
            reveal_strlit("[END_FILE]");
        }
        let after = p + create_mark().len();
        let w = ws_end(s, after);
        proof {
            lemma_ws_end(s, after);
        }
        let cb = spec_find(s, rbracket_mark(), after);
        proof {
            lemma_spec_find(s, rbracket_mark(), after);
        }
        if cb < after || cb == after {
            spec_bracket_ops(s, p + 1)
        } else {
            let path_start = if w < cb {
                w
            } else {
                cb - 1
            };
            let w2 = ws_end(s, cb + 1);
            proof {
                lemma_ws_end(s, cb + 1);
            }
            if !occurs_at(s, fence_mark(), w2) {
                spec_bracket_ops(s, p + 1)
            } else {
                let l = lang_end(s, w2 + fence_mark().len());
                proof {
                    lemma_lang_end(s, w2 + fence_mark().len());
                }
                if l >= s.len() || s[l] != '\n' {
                    spec_bracket_ops(s, p + 1)
                } else {
                    let e = spec_find_close(s, l + 1);
                    proof {
                        lemma_spec_find_close(s, l + 1);
                    }
                    if e < l + 1 {
                        spec_bracket_ops(s, p + 1)
                    } else {
                        let path = trim_ws(s.subrange(path_start, cb));
                        let content = s.subrange(l + 1, e);
                        let next = ws_end(s, e + nl_fence_mark().len()) + end_file_mark().len();
                        proof {
                            lemma_ws_end(s, e + nl_fence_mark().len());
                        }
                        seq![(path, content)] + spec_bracket_ops(s, next)
                    }
                }
            }
        }
    }
}

/// The first position at or after `i` that does not hold a lower-case
/// ASCII letter (the fence's language tag).
pub open spec fn lang_end(s: Seq<char>, i: int) -> int
    decreases s.len() - i,
{
    if i < 0 || i >= s.len() {
        i
    } else if 'a' <= s[i] && s[i] <= 'z' {
        lang_end(s, i + 1)
    } else {
        i
    }
}

pub proof fn lemma_lang_end(s: Seq<char>, i: int)
    requires
        0 <= i <= s.len(),
    ensures
        i <= lang_end(s, i) <= s.len(),
    decreases s.len() - i,
{
    if i < s.len() && 'a' <= s[i] && s[i] <= 'z' {
        lemma_lang_end(s, i + 1);
    }
}

/// The first position at or after `e0` where a newline-fence is
/// followed by optional whitespace and the end marker, or -1.
pub open spec fn spec_find_close(s: Seq<char>, e0: int) -> int
    decreases s.len() - e0,
{
    if e0 < 0 || e0 >= s.len() {
        -1
    } else if occurs_at(s, nl_fence_mark(), e0) && occurs_at(
        s,
        end_file_mark(),
        ws_end(s, e0 + nl_fence_mark().len()),
    ) {
        e0
    } else {
        spec_find_close(s, e0 + 1)
    }
}

pub proof fn lemma_spec_find_close(s: Seq<char>, e0: int)
    requires
        e0 >= 0,
    ensures
        spec_find_close(s, e0) == -1 || e0 <= spec_find_close(s, e0) < s.len(),
        spec_find_close(s, e0) >= 0 ==> {
            let e = spec_find_close(s, e0);
            occurs_at(s, nl_fence_mark(), e) && occurs_at(
                s,
                end_file_mark(),
                ws_end(s, e + nl_fence_mark().len()),
            )
        },
    decreases s.len() - e0,
{
    if e0 < s.len() && !(occurs_at(s, nl_fence_mark(), e0) && occurs_at(
        s,
        end_file_mark(),
        ws_end(s, e0 + nl_fence_mark().len()),
    )) {
        lemma_spec_find_close(s, e0 + 1);
    }
}

/// Every file operation in `s`: `<file>` findings first, then bracket
/// findings, each in text order.
pub open spec fn spec_parse_file_operations(s: Seq<char>) -> Seq<(Seq<char>, Seq<char>)> {
    spec_xml_ops(s, 0) + spec_bracket_ops(s, 0)
}

/// Scan for `<file path="...">` blocks.
#[verifier::loop_isolation(false)]
fn scan_xml_ops(text: &Vec<char>) -> (r: Vec<FileOperation>)
    ensures
        r.deep_view() == spec_xml_ops(text@, 0),
        forall|k: int|
            0 <= k < r@.len() ==> (#[trigger] r@[k]).operation_type == FileOperationType::Create,
{
    let n = text.len();
    let open_pat = str_to_chars("<file");
    let path_pat = str_to_chars("path=\"");
    let quote_pat = str_to_chars("\"");
    let close_pat = str_to_chars("</file>");
    proof {
        reveal_strlit("<file");
        reveal_strlit("path=\"");
        reveal_strlit("\"");
        reveal_strlit("</file>");
    }
    let mut out: Vec<FileOperation> = Vec::new();
    let mut cur: usize = 0;
    loop
        invariant
            cur <= n,
            n == text@.len(),
            open_pat@ == file_open_mark(),
            path_pat@ == path_eq_mark(),
            quote_pat@ == quote1_mark(),
            close_pat@ == file_close_mark(),
            spec_xml_ops(text@, 0) == out.deep_view() + spec_xml_ops(text@, cur as int),
            forall|k: int|
                0 <= k < out@.len() ==> (#[trigger] out@[k]).operation_type
                    == FileOperationType::Create,
        decreases n - cur,
    {
        let ghost prefix = out.deep_view();
        match find_at(text, &open_pat, cur) {
            None => {
                proof {
                    assert(spec_xml_ops(text@, cur as int) =~= Seq::<
                        (Seq<char>, Seq<char>),
                    >::empty());
                    assert(out.deep_view() =~= spec_xml_ops(text@, 0));
                }
                return out;
            },
            Some(p) => {
                let q = skip_ws(text, p + 5);
                let header_ok = q > p + 5 && 6 <= n - q && matches_at(text, &path_pat, q);
                if !header_ok {
                    proof {
                        if occurs_at(text@, path_eq_mark(), q as int) {
                            assert(q as int + 6 <= n);
                        }
                    }
                    cur = p + 1;
                    continue;
                }
                match find_at(text, &quote_pat, q + 6) {
                    None => {
                        cur = p + 1;
                    },
                    Some(nq) => {
                        if nq <= q + 6 {
                            cur = p + 1;
                            continue;
                        }
                        let w2 = skip_ws(text, nq + 1);
                        if w2 >= n || text[w2] != '>' {
                            cur = p + 1;
                            continue;
                        }
                        match find_at(text, &close_pat, w2 + 1) {
                            None => {
                                cur = p + 1;
                            },
                            Some(c) => {
                                let raw_path = sub_chars(text, q + 6, nq);
                                let path = chars_to_string(&trim_chars(&raw_path));
                                let content_chars = sub_chars(text, w2 + 1, c);
                                let content = chars_to_string(&content_chars);
                                let next = c + 7;
                                let op = FileOperation {
                                    path,
                                    content,
                                    operation_type: FileOperationType::Create,
                                };
                                proof {
                                    assert(spec_xml_ops(text@, cur as int) == seq![op.deep_view()]
                                        + spec_xml_ops(text@, next as int));
                                }
                                out.push(op);
                                proof {
                                    assert(out.deep_view() =~= prefix.push(
                                        out@[out@.len() - 1].deep_view(),
                                    ));
                                    assert(prefix + (seq![out@[out@.len() - 1].deep_view()]
                                        + spec_xml_ops(text@, next as int)) =~= out.deep_view()
                                        + spec_xml_ops(text@, next as int));
                                }
                                cur = next;
                            },
                        }
                    },
                }
            },
        }
    }
}

/// Scan for `[CREATE_FILE: ...]` fenced blocks.
#[verifier::loop_isolation(false)]
fn scan_bracket_ops(text: &Vec<char>) -> (r: Vec<FileOperation>)
    ensures
        r.deep_view() == spec_bracket_ops(text@, 0),
        forall|k: int|
            0 <= k < r@.len() ==> (#[trigger] r@[k]).operation_type == FileOperationType::Create,
{
    let n = text.len();
    let create_pat = str_to_chars("[CREATE_FILE:");
    let rb_pat = str_to_chars("]");
    let fence_pat = str_to_chars("```");
    let nl_fence_pat = str_to_chars("\n```");
    let end_pat = str_to_chars("[END_FILE]");
    proof {
        reveal_strlit("[CREATE_FILE:");
        reveal_strlit("]");
        reveal_strlit("```");
        reveal_strlit("\n```");
        reveal_strlit("[END_FILE]");
    }
    let mut out: Vec<FileOperation> = Vec::new();
    let mut cur: usize = 0;
    loop
        invariant
            cur <= n,
            n == text@.len(),
            create_pat@ == create_mark(),
            rb_pat@ == rbracket_mark(),
            fence_pat@ == fence_mark(),
            nl_fence_pat@ == nl_fence_mark(),
            end_pat@ == end_file_mark(),
            spec_bracket_ops(text@, 0) == out.deep_view() + spec_bracket_ops(text@, cur as int),
            forall|k: int|
                0 <= k < out@.len() ==> (#[trigger] out@[k]).operation_type
                    == FileOperationType::Create,
        decreases n - cur,
    {
        let ghost prefix = out.deep_view();
        match find_at(text, &create_pat, cur) {
            None => {
                proof {
                    assert(spec_bracket_ops(text@, cur as int) =~= Seq::<
                        (Seq<char>, Seq<char>),
                    >::empty());
                    assert(out.deep_view() =~= spec_bracket_ops(text@, 0));
                }
                return out;
            },
            Some(p) => {
                let after = p + 13;
                let w = skip_ws(text, after);
                match find_at(text, &rb_pat, after) {
                    None => {
                        cur = p + 1;
                        continue;
                    },
                    Some(cb) => {
                        if cb <= after {
                            cur = p + 1;
                            continue;
                        }
                        let path_start = if w < cb {
                            w
                        } else {
                            cb - 1
                        };
                        let w2 = skip_ws(text, cb + 1);
                        let fence_ok = 3 <= n - w2 && matches_at(text, &fence_pat, w2);
                        if !fence_ok {
                            proof {
                                if occurs_at(text@, fence_mark(), w2 as int) {
                                    assert(w2 as int + 3 <= n);
                                }
                            }
                            cur = p + 1;
                            continue;
                        }
                        // Skip the language tag.
                        let mut l = w2 + 3;
                        while l < n && 'a' <= text[l] && text[l] <= 'z'
                            invariant
                                w2 + 3 <= l <= n,
                                lang_end(text@, w2 as int + 3) == lang_end(text@, l as int),
                            decreases n - l,
                        {
                            l = l + 1;
                        }
                        proof {
                            assert(lang_end(text@, l as int) == l);
                        }
                        if l >= n || text[l] != '\n' {
                            cur = p + 1;
                            continue;
                        }
                        // Find the closing fence.
                        let mut e = l + 1;
                        let mut found: bool = false;
                        while e < n && !found
                            invariant
                                l + 1 <= e <= n,
                                found ==> e < n && spec_find_close(text@, l as int + 1) == e,
                                !found ==> spec_find_close(text@, l as int + 1) == spec_find_close(
                                    text@,
                                    e as int,
                                ),
                            decreases n - e + (if found {
                                0int
                            } else {
                                1int
                            }),
                        {
                            let nl_ok = 4 <= n - e && matches_at(text, &nl_fence_pat, e);
                            if nl_ok {
                                let f = skip_ws(text, e + 4);
                                if 10 <= n - f && matches_at(text, &end_pat, f) {
                                    found = true;
                                } else {
                                    proof {
                                        if occurs_at(
                                            text@,
                                            end_file_mark(),
                                            ws_end(text@, e as int + 4),
                                        ) {
                                            assert(false);
                                        }
                                    }
                                    e = e + 1;
                                }
                            } else {
                                proof {
                                    if occurs_at(text@, nl_fence_mark(), e as int) {
                                        assert(e as int + 4 <= n);
                                    }
                                }
                                e = e + 1;
                            }
                        }
                        if !found {
                            proof {
                                assert(spec_find_close(text@, l as int + 1) == -1);
                            }
                            cur = p + 1;
                            continue;
                        }
                        proof {
                            lemma_spec_find_close(text@, l as int + 1);
                            lemma_ws_end(text@, e as int + 4);
                        }
                        let raw_path = sub_chars(text, path_start, cb);
                        let path = chars_to_string(&trim_chars(&raw_path));
                        let content_chars = sub_chars(text, l + 1, e);
                        let content = chars_to_string(&content_chars);
                        let f2 = skip_ws(text, e + 4);
                        let next = f2 + 10;
                        let op = FileOperation {
                            path,
                            content,
                            operation_type: FileOperationType::Create,
                        };
                        proof {
                            lemma_spec_find_close(text@, l as int + 1);
                            assert(spec_bracket_ops(text@, cur as int) == seq![op.deep_view()]
                                + spec_bracket_ops(text@, next as int));
                        }
                        out.push(op);
                        proof {
                            assert(out.deep_view() =~= prefix.push(
                                out@[out@.len() - 1].deep_view(),
                            ));
                            assert(prefix + (seq![out@[out@.len() - 1].deep_view()]
                                + spec_bracket_ops(text@, next as int)) =~= out.deep_view()
                                + spec_bracket_ops(text@, next as int));
                        }
                        cur = next;
                    },
                }
            },
        }
    }
}

/// Every file operation in the model's output, `<file>` blocks first,
/// then bracket blocks, each in text order; paths trimmed, contents
/// kept as written. A malformed occurrence yields nothing.
pub fn parse_file_operations(output: &str) -> (r: Vec<FileOperation>)
    ensures
        r.deep_view() == spec_parse_file_operations(output@),
        forall|k: int|
            0 <= k < r@.len() ==> (#[trigger] r@[k]).operation_type == FileOperationType::Create,
{
    let chars = str_to_chars(output);
    let mut ops = scan_xml_ops(&chars);
    let ghost xpart = ops.deep_view();
    let ghost xops = ops@;
    let mut brackets = scan_bracket_ops(&chars);
    let ghost bpart = brackets.deep_view();
    let ghost bops = brackets@;
    ops.append(&mut brackets);
    proof {
        assert(ops.deep_view() =~= xpart + bpart);
        assert(forall|k: int|
            0 <= k < ops@.len() ==> (#[trigger] ops@[k]).operation_type
                == FileOperationType::Create) by {
            assert(forall|k: int|
                0 <= k < ops@.len() ==> #[trigger] ops@[k] == if k < xops.len() {
                    xops[k]
                } else {
                    bops[k - xops.len()]
                });
        }
    }
    ops
}



/// The text with every CR-LF pair turned into a bare LF.
pub open spec fn spec_strip_crlf(s: Seq<char>) -> Seq<char>
    decreases s.len(),
{
    if s.len() == 0 {
        Seq::empty()
    } else if s.len() >= 2 && s[0] == '\r' && s[1] == '\n' {
        seq!['\n'] + spec_strip_crlf(s.skip(2))
    } else {
        seq![s[0]] + spec_strip_crlf(s.skip(1))
    }
}

/// A file content normalized for comparison: CR-LF line ends unified
/// and trailing whitespace dropped.
pub open spec fn spec_normalize_content(s: Seq<char>) -> Seq<char> {
    let t = spec_strip_crlf(s);
    t.take(crate::text::trim_end_pos(t, t.len() as int))
}

/// Whether two contents are the same text once line endings are unified
/// and trailing whitespace is ignored.
pub fn contents_equal(a: &str, b: &str) -> (r: bool)
    ensures
        r == (spec_normalize_content(a@) == spec_normalize_content(b@)),
{
    let na = normalize_content(a);
    let nb = normalize_content(b);
    let r = crate::paths::chars_eq(&na, &nb);
    r
}

/// Strip CR-LF pairs and trailing whitespace.
fn normalize_content(s: &str) -> (r: Vec<char>)
    ensures
        r@ == spec_normalize_content(s@),
{
    let chars = str_to_chars(s);
    let n = chars.len();
    let mut out: Vec<char> = Vec::new();
    let mut i: usize = 0;
    proof {
        assert(s@.skip(0) =~= s@);
        assert(Seq::<char>::empty() + spec_strip_crlf(s@) =~= spec_strip_crlf(s@));
    }
    while i < n
        invariant
            0 <= i <= n,
            n == s@.len(),
            chars@ == s@,
            spec_strip_crlf(s@) == out@ + spec_strip_crlf(s@.skip(i as int)),
        decreases n - i,
    {
        let ghost pre = out@;
        proof {
            assert(s@.skip(i as int)[0] == s@[i as int]);
            if i + 2 <= n {
                assert(s@.skip(i as int)[1] == s@[i as int + 1]);
                assert(s@.skip(i as int).skip(2) =~= s@.skip(i as int + 2));
            }
            assert(s@.skip(i as int).skip(1) =~= s@.skip(i as int + 1));
        }
        if i + 1 < n && chars[i] == '\r' && chars[i + 1] == '\n' {
            out.push('\n');
            proof {
                assert(pre + (seq!['\n'] + spec_strip_crlf(s@.skip(i as int + 2))) =~= out@
                    + spec_strip_crlf(s@.skip(i as int + 2)));
            }
            i = i + 2;
        } else {
            out.push(chars[i]);
            proof {
                assert(pre + (seq![s@[i as int]] + spec_strip_crlf(s@.skip(i as int + 1))) =~= out@
                    + spec_strip_crlf(s@.skip(i as int + 1)));
            }
            i = i + 1;
        }
    }
    proof {
        assert(s@.skip(n as int) =~= Seq::<char>::empty());
        assert(spec_strip_crlf(s@.skip(n as int)) =~= Seq::<char>::empty());
        assert(out@ + spec_strip_crlf(s@.skip(n as int)) =~= out@);
    }
    let ghost t = spec_strip_crlf(s@);
    // Drop trailing whitespace.
    let m = out.len();
    let mut b = m;
    while b > 0 && crate::text::is_ws_char(out[b - 1])
        invariant
            0 <= b <= m,
            m == out@.len(),
            out@ == t,
            crate::text::trim_end_pos(t, m as int) == crate::text::trim_end_pos(t, b as int),
        decreases b,
    {
        b = b - 1;
    }
    proof {
        lemma_trim_end_pos(t, b as int);
        if b > 0 {
            assert(crate::text::trim_end_pos(t, b as int) == b);
        }
    }
    let r = sub_chars(&out, 0, b);
    proof {
        assert(r@ =~= t.take(crate::text::trim_end_pos(t, t.len() as int)));
    }
    r
}



/// An operation's content matches one of the provided input files,
/// after normalization: it would write back what was read.
pub open spec fn spec_echoes_input(
    content: Seq<char>,
    provided: Seq<(Seq<char>, Seq<char>)>,
) -> bool {
    exists|k: int|
        0 <= k < provided.len() && spec_normalize_content(#[trigger] provided[k].1)
            == spec_normalize_content(content)
}

/// The operations kept after dropping those that echo an input file.
pub open spec fn spec_filter_ops(
    ops: Seq<(Seq<char>, Seq<char>)>,
    provided: Seq<(Seq<char>, Seq<char>)>,
) -> Seq<(Seq<char>, Seq<char>)>
    decreases ops.len(),
{
    if ops.len() == 0 {
        Seq::empty()
    } else {
        let rest = spec_filter_ops(ops.drop_first(), provided);
        if spec_echoes_input(ops[0].1, provided) {
            rest
        } else {
            seq![ops[0]] + rest
        }
    }
}

/// A provided input file has this path.
pub open spec fn spec_has_provider(path: Seq<char>, provided: Seq<(Seq<char>, Seq<char>)>) -> bool {
    exists|k: int| 0 <= k < provided.len() && (#[trigger] provided[k]).0 == path
}

/// Whether every kept operation names a provided input path, so that a
/// single output target can take their place.
pub open spec fn spec_all_input_paths(
    ops: Seq<(Seq<char>, Seq<char>)>,
    provided: Seq<(Seq<char>, Seq<char>)>,
) -> bool {
    forall|i: int| 0 <= i < ops.len() ==> spec_has_provider((#[trigger] ops[i]).0, provided)
}

/// What the kept operations look like after the target remap: when one
/// output target is named and every kept operation writes to an input
/// path, all of them write to the target instead.
pub open spec fn spec_plan_file_outputs(
    ops: Seq<(Seq<char>, Seq<char>)>,
    provided: Seq<(Seq<char>, Seq<char>)>,
    targets: Seq<Seq<char>>,
) -> Seq<(Seq<char>, Seq<char>)> {
    let kept = spec_filter_ops(ops, provided);
    if targets.len() == 1 && kept.len() > 0 && spec_all_input_paths(kept, provided) {
        Seq::new(kept.len(), |i: int| (targets[0], kept[i].1))
    } else {
        kept
    }
}

fn echoes_input(content: &str, provided: &Vec<(String, String)>) -> (r: bool)
    ensures
        r == spec_echoes_input(content@, provided.deep_view()),
{
    let n = provided.len();
    let mut i: usize = 0;
    while i < n
        invariant
            0 <= i <= n,
            n == provided@.len(),
            forall|k: int|
                0 <= k < i ==> spec_normalize_content((#[trigger] provided.deep_view()[k]).1)
                    != spec_normalize_content(content@),
        decreases n - i,
    {
        if contents_equal(provided[i].1.as_str(), content) {
            proof {
                assert(spec_normalize_content(provided.deep_view()[i as int].1)
                    == spec_normalize_content(content@));
            }
            return true;
        }
        i = i + 1;
    }
    proof {
        if spec_echoes_input(content@, provided.deep_view()) {
            let k = choose|k: int|
                0 <= k < provided.deep_view().len() && spec_normalize_content(
                    #[trigger] provided.deep_view()[k].1,
                ) == spec_normalize_content(content@);
            assert(false);
        }
    }
    false
}

fn path_is_provided(path: &str, provided: &Vec<(String, String)>) -> (r: bool)
    ensures
        r == spec_has_provider(path@, provided.deep_view()),
{
    let n = provided.len();
    let mut i: usize = 0;
    while i < n
        invariant
            0 <= i <= n,
            n == provided@.len(),
            forall|k: int| 0 <= k < i ==> (#[trigger] provided.deep_view()[k]).0 != path@,
        decreases n - i,
    {
        if provided[i].0.as_str().eq(path) {
            assert(provided.deep_view()[i as int].0 == path@);
            return true;
        }
        i = i + 1;
    }
    proof {
        if spec_has_provider(path@, provided.deep_view()) {
            let k = choose|k: int|
                0 <= k < provided.deep_view().len() && (#[trigger] provided.deep_view()[k]).0
                    == path@;
            assert(false);
        }
    }
    false
}

/// Decide which detected file operations should run: one whose content
/// only echoes a provided input file is dropped; and when exactly one
/// output target was named and every kept operation writes to an input
/// path, the operations are redirected to that target.
#[verifier::loop_isolation(false)]
pub fn plan_file_outputs(
    ops: Vec<FileOperation>,
    provided: &Vec<(String, String)>,
    output_targets: &Vec<String>,
) -> (r: Vec<FileOperation>)
    ensures
        r.deep_view() == spec_plan_file_outputs(
            ops.deep_view(),
            provided.deep_view(),
            output_targets.deep_view(),
        ),
        forall|k: int|
            0 <= k < r@.len() ==> (#[trigger] r@[k]).operation_type == FileOperationType::Create,
{
    let ghost od = ops.deep_view();
    let n = ops.len();
    let mut kept: Vec<FileOperation> = Vec::new();
    proof {
        assert(od.skip(0) =~= od);
        assert(kept.deep_view() =~= Seq::<(Seq<char>, Seq<char>)>::empty());
    }
    for i in 0..n
        invariant
            n == ops@.len(),
            od == ops.deep_view(),
            od.len() == n,
            spec_filter_ops(od, provided.deep_view()) == kept.deep_view() + spec_filter_ops(
                od.skip(i as int),
                provided.deep_view(),
            ),
            forall|k: int|
                0 <= k < kept@.len() ==> (#[trigger] kept@[k]).operation_type
                    == FileOperationType::Create,
    {
        proof {
            assert(od.skip(i as int)[0] == od[i as int]);
            assert(od.skip(i as int).drop_first() =~= od.skip(i as int + 1));
        }
        if !echoes_input(ops[i].content.as_str(), provided) {
            let ghost pre = kept.deep_view();
            kept.push(
                FileOperation {
                    path: ops[i].path.clone(),
                    content: ops[i].content.clone(),
                    operation_type: FileOperationType::Create,
                },
            );
            proof {
                assert(kept.deep_view() =~= pre.push(od[i as int]));
                assert(pre + (seq![od[i as int]] + spec_filter_ops(
                    od.skip(i as int + 1),
                    provided.deep_view(),
                )) =~= kept.deep_view() + spec_filter_ops(
                    od.skip(i as int + 1),
                    provided.deep_view(),
                ));
            }
        }
    }
    proof {
        assert(od.skip(n as int) =~= Seq::<(Seq<char>, Seq<char>)>::empty());
        assert(spec_filter_ops(od.skip(n as int), provided.deep_view()) =~= Seq::<
            (Seq<char>, Seq<char>),
        >::empty());
        assert(kept.deep_view() + spec_filter_ops(od.skip(n as int), provided.deep_view())
            =~= kept.deep_view());
    }
    // Remap to the single output target when it applies.
    if output_targets.len() != 1 || kept.len() == 0 {
        return kept;
    }
    let m = kept.len();
    let ghost kd0 = kept.deep_view();
    let mut all_inputs = true;
    let mut j: usize = 0;
    while j < m
        invariant
            0 <= j <= m,
            m == kept@.len(),
            kd0 == kept.deep_view(),
            all_inputs == (forall|t: int|
                0 <= t < j ==> spec_has_provider((#[trigger] kd0[t]).0, provided.deep_view())),
        decreases m - j,
    {
        let here = path_is_provided(kept[j].path.as_str(), provided);
        proof {
            assert(kd0[j as int].0 == kept@[j as int].path@);
        }
        let new_all = all_inputs && here;
        proof {
            if new_all {
                assert forall|t: int|
                    0 <= t < j as int + 1 implies spec_has_provider(
                    (#[trigger] kd0[t]).0,
                    provided.deep_view(),
                ) by {
                    if t == j as int {
                        assert(spec_has_provider(kd0[j as int].0, provided.deep_view()));
                    }
                }
            } else if all_inputs {
                assert(!spec_has_provider(kd0[j as int].0, provided.deep_view()));
            }
        }
        all_inputs = new_all;
        j = j + 1;
    }
    if !all_inputs {
        proof {
            assert(!spec_all_input_paths(kept.deep_view(), provided.deep_view()));
        }
        return kept;
    }
    proof {
        assert(spec_all_input_paths(kept.deep_view(), provided.deep_view()));
    }
    let target = &output_targets[0];
    let mut out: Vec<FileOperation> = Vec::new();
    let ghost kd = kept.deep_view();
    let mut q: usize = 0;
    while q < m
        invariant
            0 <= q <= m,
            m == kept@.len(),
            kd == kept.deep_view(),
            out@.len() == q,
            forall|t: int|
                0 <= t < q ==> (#[trigger] out.deep_view()[t]) == (
                    output_targets.deep_view()[0],
                    kd[t].1,
                ),
            forall|t: int|
                0 <= t < q ==> (#[trigger] out@[t]).operation_type == FileOperationType::Create,
        decreases m - q,
    {
        let ghost pre = out.deep_view();
        out.push(
            FileOperation {
                path: target.clone(),
                content: kept[q].content.clone(),
                operation_type: FileOperationType::Create,
            },
        );
        proof {
            assert(out.deep_view() =~= pre.push(
                (output_targets.deep_view()[0], kd[q as int].1),
            ));
        }
        q = q + 1;
    }
    proof {
        assert(out.deep_view() =~= Seq::new(kd.len(), |i: int| (output_targets.deep_view()[0], kd[i].1)));
    }
    out
}

} // verus!
