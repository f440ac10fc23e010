//! Detecting file paths in the user's text.
//!
//! A candidate is a maximal run of path characters (ASCII letters and
//! digits, `_`, `-`, `.`, `/`, `~`), trimmed of trailing punctuation. It
//! counts as a path when, after an optional `~/`, `./` or `/` prefix, it
//! is made of non-empty `/`-separated segments of plain characters and
//! ends in a dot extension that is alphanumeric, holds a letter, and is
//! one of the allowed extensions (case-insensitively). Duplicates are
//! dropped, first occurrence kept.

use vstd::prelude::*;
use crate::text::{ascii_lower, ascii_lower_chars, chars_to_string, str_to_chars, sub_chars};

verus! {

/// A character that may appear in a path run.
pub open spec fn path_char(c: char) -> bool {
    ||| ('a' <= c && c <= 'z')
    ||| ('A' <= c && c <= 'Z')
    ||| ('0' <= c && c <= '9')
    ||| c == '_'
    ||| c == '-'
    ||| c == '.'
    ||| c == '/'
    ||| c == '~'
}

/// A character that may appear inside a path segment.
pub open spec fn seg_char(c: char) -> bool {
    path_char(c) && c != '/' && c != '~'
}

/// An ASCII letter or digit.
pub open spec fn alnum_char(c: char) -> bool {
    ('a' <= c && c <= 'z') || ('A' <= c && c <= 'Z') || ('0' <= c && c <= '9')
}

/// An ASCII letter.
pub open spec fn alpha_char(c: char) -> bool {
    ('a' <= c && c <= 'z') || ('A' <= c && c <= 'Z')
}

/// The first position at or after `from` holding a path character, or
/// the end.
pub open spec fn spec_run_start(s: Seq<char>, from: int) -> int
    decreases s.len() - from,
{
    if from < 0 || from >= s.len() {
        s.len() as int
    } else if path_char(s[from]) {
        from
    } else {
        spec_run_start(s, from + 1)
    }
}

/// The position after the last path character of the run starting at `i`.
pub open spec fn spec_run_end(s: Seq<char>, i: int) -> int
    decreases s.len() - i,
{
    if i < 0 || i >= s.len() {
        s.len() as int
    } else if path_char(s[i]) {
        spec_run_end(s, i + 1)
    } else {
        i
    }
}

pub proof fn lemma_run_start(s: Seq<char>, from: int)
    requires
        0 <= from <= s.len(),
    ensures
        from <= spec_run_start(s, from) <= s.len(),
        spec_run_start(s, from) < s.len() ==> path_char(s[spec_run_start(s, from)]),
    decreases s.len() - from,
{
    if from < s.len() && !path_char(s[from]) {
        lemma_run_start(s, from + 1);
    }
}

pub proof fn lemma_run_end(s: Seq<char>, i: int)
    requires
        0 <= i <= s.len(),
    ensures
        i <= spec_run_end(s, i) <= s.len(),
        i < s.len() && path_char(s[i]) ==> spec_run_end(s, i) > i,
    decreases s.len() - i,
{
    if i < s.len() && path_char(s[i]) {
        lemma_run_end(s, i + 1);
    }
}

pub proof fn lemma_strip_end_range(run: Seq<char>, j: int)
    requires
        0 <= j <= run.len(),
    ensures
        0 <= spec_strip_end(run, j) <= j,
    decreases j,
{
    if j > 0 && !alnum_char(run[j - 1]) {
        lemma_strip_end_range(run, j - 1);
    }
}

/// The run without trailing characters that are not letters or digits.
pub open spec fn spec_strip_end(run: Seq<char>, j: int) -> int
    decreases j,
{
    if j <= 0 {
        0
    } else if !alnum_char(run[j - 1]) {
        spec_strip_end(run, j - 1)
    } else {
        j
    }
}

/// The run after its optional `~/`, `./` or `/` prefix.
pub open spec fn spec_after_prefix(run: Seq<char>) -> Seq<char> {
    if run.len() >= 2 && (run[0] == '~' || run[0] == '.') && run[1] == '/' {
        run.skip(2)
    } else if run.len() >= 1 && run[0] == '/' {
        run.skip(1)
    } else {
        run
    }
}

/// The position of the last dot of `rest`, or -1.
pub open spec fn spec_last_dot(rest: Seq<char>, j: int) -> int
    decreases j,
{
    if j <= 0 {
        -1
    } else if rest[j - 1] == '.' {
        j - 1
    } else {
        spec_last_dot(rest, j - 1)
    }
}

/// The extension is allowed: some allowed entry equals it once both are
/// lowered.
pub open spec fn spec_ext_allowed(ext: Seq<char>, allowed: Seq<Seq<char>>) -> bool {
    exists|k: int| 0 <= k < allowed.len() && ascii_lower(#[trigger] allowed[k]) == ascii_lower(ext)
}

/// A trimmed run is a detectable path under the allowed extensions.
pub open spec fn spec_valid_path(run: Seq<char>, allowed: Seq<Seq<char>>) -> bool {
    let rest = spec_after_prefix(run);
    let d = spec_last_dot(rest, rest.len() as int);
    &&& rest.len() > 0
    &&& (forall|i: int| 0 <= i < rest.len() ==> seg_char(#[trigger] rest[i]) || rest[i] == '/')
    &&& rest[0] != '/'
    &&& rest[rest.len() - 1] != '/'
    &&& (forall|i: int| 0 <= i < rest.len() - 1 ==> !(#[trigger] rest[i] == '/' && rest[i + 1]
        == '/'))
    &&& d >= 0
    &&& d + 1 < rest.len()
    &&& (forall|i: int| d < i < rest.len() ==> alnum_char(#[trigger] rest[i]))
    &&& (exists|i: int| d < i < rest.len() && alpha_char(#[trigger] rest[i]))
    &&& spec_ext_allowed(rest.skip(d + 1), allowed)
}

/// The valid trimmed runs of `s` from `from` on, in order, duplicates
/// kept.
pub open spec fn spec_scan_paths(s: Seq<char>, from: int, allowed: Seq<Seq<char>>) -> Seq<
    Seq<char>,
>
    decreases s.len() - from,
{
    let i = spec_run_start(s, from);
    if from < 0 || i < from || i >= s.len() {
        Seq::empty()
    } else {
        let j = spec_run_end(s, i);
        proof {
            lemma_run_start(s, from);
            lemma_run_end(s, i);
        }
        if j <= i {
            Seq::empty()
        } else {
            proof {
                lemma_strip_end_range(s.subrange(i, j), j - i);
            }
            let run = s.subrange(i, j).take(spec_strip_end(s.subrange(i, j), j - i));
            let rest = spec_scan_paths(s, j, allowed);
            if run.len() > 0 && spec_valid_path(run, allowed) {
                seq![run] + rest
            } else {
                rest
            }
        }
    }
}

/// The sequence with later duplicates dropped.
pub open spec fn spec_dedup(items: Seq<Seq<char>>) -> Seq<Seq<char>>
    decreases items.len(),
{
    if items.len() == 0 {
        Seq::empty()
    } else {
        let front = spec_dedup(items.drop_last());
        if front.contains(items.last()) {
            front
        } else {
            front.push(items.last())
        }
    }
}

/// The detected paths: valid trimmed runs in text order, first
/// occurrence of each.
pub open spec fn spec_detect_paths(s: Seq<char>, allowed: Seq<Seq<char>>) -> Seq<Seq<char>> {
    if allowed.len() == 0 {
        Seq::empty()
    } else {
        spec_dedup(spec_scan_paths(s, 0, allowed))
    }
}

fn is_path_char(c: char) -> (r: bool)
    ensures
        r == path_char(c),
{
    ('a' <= c && c <= 'z') || ('A' <= c && c <= 'Z') || ('0' <= c && c <= '9') || c == '_' || c
        == '-' || c == '.' || c == '/' || c == '~'
}

pub fn is_alnum_ascii(c: char) -> (r: bool)
    ensures
        r == alnum_char(c),
{
    ('a' <= c && c <= 'z') || ('A' <= c && c <= 'Z') || ('0' <= c && c <= '9')
}

fn is_alpha_char(c: char) -> (r: bool)
    ensures
        r == alpha_char(c),
{
    ('a' <= c && c <= 'z') || ('A' <= c && c <= 'Z')
}

/// Two character vectors hold the same text.
pub fn chars_eq(a: &Vec<char>, b: &Vec<char>) -> (r: bool)
    ensures
        r == (a@ == b@),
{
    let n = a.len();
    if b.len() != n {
        proof {
            assert(a@ != b@);
        }
        return false;
    }
    let mut i: usize = 0;
    while i < n
        invariant
            0 <= i <= n,
            n == a@.len() == b@.len(),
            forall|k: int| 0 <= k < i ==> a@[k] == b@[k],
        decreases n - i,
    {
        if a[i] != b[i] {
            return false;
        }
        i = i + 1;
    }
    proof {
        assert(a@ =~= b@);
    }
    true
}

/// Whether a trimmed run is a detectable path.
#[verifier::loop_isolation(false)]
#[verifier::rlimit(80)]
fn is_valid_path(run: &Vec<char>, allowed: &Vec<String>) -> (r: bool)
    ensures
        r == spec_valid_path(run@, allowed.deep_view()),
{
    let n = run.len();
    // Skip the optional prefix.
    let start: usize = if n >= 2 && (run[0] == '~' || run[0] == '.') && run[1] == '/' {
        2
    } else if n >= 1 && run[0] == '/' {
        1
    } else {
        0
    };
    proof {
        assert(spec_after_prefix(run@) =~= run@.skip(start as int));
    }
    let ghost rest = run@.skip(start as int);
    let m = n - start;
    if m == 0 {
        return false;
    }
    // Every character is a segment character or a separator, with no
    // leading, trailing or doubled separator.
    let mut i: usize = 0;
    while i < m
        invariant
            0 <= i <= m,
            forall|k: int| 0 <= k < i ==> seg_char(#[trigger] rest[k]) || rest[k] == '/',
        decreases m - i,
    {
        let c = run[start + i];
        assert(c == rest[i as int]);
        if !(is_path_char(c) && c != '/' && c != '~') && c != '/' {
            return false;
        }
        i = i + 1;
    }
    proof {
        assert(rest[0] == run@[start as int]);
        assert(rest[m - 1] == run@[n - 1]);
    }
    if run[start] == '/' || run[n - 1] == '/' {
        return false;
    }
    let mut i2: usize = 0;
    while i2 < m - 1
        invariant
            0 <= i2 <= m,
            forall|k: int| 0 <= k < i2 && k + 1 < m ==> !(#[trigger] rest[k] == '/' && rest[k + 1]
                == '/'),
        decreases m - i2,
    {
        proof {
            assert(rest[i2 as int] == run@[start + i2]);
            assert(rest[i2 as int + 1] == run@[start + i2 + 1]);
        }
        if run[start + i2] == '/' && run[start + i2 + 1] == '/' {
            return false;
        }
        i2 = i2 + 1;
    }
    // Find the last dot and check the extension.
    let mut d: usize = m;
    while d > 0 && run[start + d - 1] != '.'
        invariant
            0 <= d <= m,
            spec_last_dot(rest, m as int) == spec_last_dot(rest, d as int),
        decreases d,
    {
        d = d - 1;
    }
    if d == 0 {
        proof {
            assert(spec_last_dot(rest, 0) == -1);
        }
        return false;
    }
    let ghost gd = spec_last_dot(rest, m as int);
    proof {
        assert(rest[d - 1] == '.');
        assert(spec_last_dot(rest, d as int) == d - 1);
        assert(gd == d - 1);
    }
    if d >= m {
        return false;
    }
    let mut has_alpha = false;
    let mut k: usize = d;
    while k < m
        invariant
            d <= k <= m,
            forall|t: int| d <= t < k ==> alnum_char(#[trigger] rest[t]),
            has_alpha == exists|t: int| d <= t < k && alpha_char(#[trigger] rest[t]),
        decreases m - k,
    {
        let c = run[start + k];
        assert(c == rest[k as int]);
        if !is_alnum_ascii(c) {
            return false;
        }
        if is_alpha_char(c) {
            has_alpha = true;
        }
        k = k + 1;
    }
    if !has_alpha {
        return false;
    }
    // The extension, lowered, must be among the allowed ones.
    let ext = sub_chars(run, start + d, n);
    proof {
        assert(ext@ =~= rest.skip(gd + 1));
    }
    let ext_low = ascii_lower_chars(&ext);
    let na = allowed.len();
    let mut a: usize = 0;
    while a < na
        invariant
            0 <= a <= na,
            na == allowed@.len(),
            ext_low@ == ascii_lower(rest.skip(gd + 1)),
            forall|t: int|
                0 <= t < a ==> ascii_lower(#[trigger] allowed.deep_view()[t]) != ascii_lower(
                    rest.skip(gd + 1),
                ),
        decreases na - a,
    {
        let cand = ascii_lower_chars(&str_to_chars(allowed[a].as_str()));
        if chars_eq(&cand, &ext_low) {
            proof {
                assert(ascii_lower(allowed.deep_view()[a as int]) == ascii_lower(
                    rest.skip(gd + 1),
                ));
                assert(spec_ext_allowed(rest.skip(gd + 1), allowed.deep_view()));
            }
            return true;
        }
        a = a + 1;
    }
    proof {
        if spec_ext_allowed(rest.skip(gd + 1), allowed.deep_view()) {
            let t = choose|t: int|
                0 <= t < allowed.deep_view().len() && ascii_lower(
                    #[trigger] allowed.deep_view()[t],
                ) == ascii_lower(rest.skip(gd + 1));
            assert(false);
        }
    }
    false
}

/// The extensions detected by default.
pub fn default_extensions() -> (r: Vec<String>)
    ensures
        r.deep_view() =~= seq![
            "rs"@, "toml"@, "md"@, "json"@, "yaml"@, "yml"@, "ts"@, "js"@, "py"@, "go"@, "sh"@,
            "txt"@, "c"@, "cpp"@, "h"@, "java"@, "cs"@,
        ],
{
    let mut r: Vec<String> = Vec::new();
    r.push("rs".to_owned());
    r.push("toml".to_owned());
    r.push("md".to_owned());
    r.push("json".to_owned());
    r.push("yaml".to_owned());
    r.push("yml".to_owned());
    r.push("ts".to_owned());
    r.push("js".to_owned());
    r.push("py".to_owned());
    r.push("go".to_owned());
    r.push("sh".to_owned());
    r.push("txt".to_owned());
    r.push("c".to_owned());
    r.push("cpp".to_owned());
    r.push("h".to_owned());
    r.push("java".to_owned());
    r.push("cs".to_owned());
    proof {
        assert(r.deep_view() =~= seq![
            "rs"@, "toml"@, "md"@, "json"@, "yaml"@, "yml"@, "ts"@, "js"@, "py"@, "go"@, "sh"@,
            "txt"@, "c"@, "cpp"@, "h"@, "java"@, "cs"@,
        ]);
    }
    r
}

/// The file paths named in `input` under the allowed extensions, in
/// text order, without duplicates.
#[verifier::loop_isolation(false)]
pub fn detect_file_paths_with_exts(input: &str, allowed_exts: &Vec<String>) -> (r: Vec<String>)
    ensures
        r.deep_view() == spec_detect_paths(input@, allowed_exts.deep_view()),
{
    if allowed_exts.len() == 0 {
        return Vec::new();
    }
    let chars = str_to_chars(input);
    let n = chars.len();
    let ghost allowed = allowed_exts.deep_view();
    let mut out: Vec<String> = Vec::new();
    let mut cur: usize = 0;
    let ghost mut raw: Seq<Seq<char>> = Seq::empty();
    proof {
        assert(spec_dedup(raw) =~= Seq::<Seq<char>>::empty());
    }
    loop
        invariant
            cur <= n,
            n == input@.len(),
            chars@ == input@,
            allowed == allowed_exts.deep_view(),
            allowed.len() > 0,
            spec_scan_paths(input@, 0, allowed) == raw + spec_scan_paths(input@, cur as int, allowed),
            out.deep_view() == spec_dedup(raw),
        decreases n - cur,
    {
        // Find the start of the next run.
        let mut i = cur;
        while i < n && !is_path_char(chars[i])
            invariant
                cur <= i <= n,
                spec_run_start(input@, cur as int) == spec_run_start(input@, i as int),
            decreases n - i,
        {
            i = i + 1;
        }
        if i >= n {
            proof {
                assert(spec_run_start(input@, cur as int) == n);
                assert(spec_scan_paths(input@, cur as int, allowed) =~= Seq::<Seq<char>>::empty());
                assert(raw + spec_scan_paths(input@, cur as int, allowed) =~= raw);
            }
            return out;
        }
        proof {
            assert(spec_run_start(input@, i as int) == i);
        }
        // Find its end.
        let mut j = i;
        while j < n && is_path_char(chars[j])
            invariant
                i <= j <= n,
                spec_run_end(input@, i as int) == spec_run_end(input@, j as int),
            decreases n - j,
        {
            j = j + 1;
        }
        proof {
            assert(spec_run_end(input@, j as int) == j);
            assert(j > i);
        }
        // Trim trailing punctuation.
        let ghost full_run = input@.subrange(i as int, j as int);
        let mut e = j - i;
        while e > 0 && !is_alnum_ascii(chars[i + e - 1])
            invariant
                0 <= e <= j - i,
                spec_strip_end(full_run, (j - i) as int) == spec_strip_end(full_run, e as int),
            decreases e,
        {
            proof {
                assert(full_run[e - 1] == input@[i + e - 1]);
            }
            e = e - 1;
        }
        proof {
            if e > 0 {
                assert(full_run[e - 1] == input@[i + e - 1]);
            }
            assert(spec_strip_end(full_run, e as int) == e);
        }
        let run = sub_chars(&chars, i, i + e);
        proof {
            assert(run@ =~= full_run.take(spec_strip_end(full_run, (j - i) as int)));
        }
        let ghost step = spec_scan_paths(input@, cur as int, allowed);
        proof {
            assert(step == ({
                let rest = spec_scan_paths(input@, j as int, allowed);
                if run@.len() > 0 && spec_valid_path(run@, allowed) {
                    seq![run@] + rest
                } else {
                    rest
                }
            }));
        }
        if run.len() > 0 && is_valid_path(&run, allowed_exts) {
            let ghost raw_pre = raw;
            proof {
                raw = raw.push(run@);
                assert(raw.drop_last() =~= raw_pre);
                assert(raw.last() == run@);
                assert(raw_pre + (seq![run@] + spec_scan_paths(input@, j as int, allowed))
                    =~= raw + spec_scan_paths(input@, j as int, allowed));
            }
            // Keep the first occurrence only.
            let mut dup = false;
            let m_out = out.len();
            let mut q: usize = 0;
            let run_str = chars_to_string(&run);
            while q < m_out
                invariant
                    0 <= q <= m_out,
                    m_out == out@.len(),
                    run_str@ == run@,
                    forall|t: int| 0 <= t < q ==> out.deep_view()[t] != run@,
                    !dup,
                decreases m_out - q,
            {
                if out[q].as_str().eq(run_str.as_str()) {
                    dup = true;
                    proof {
                        assert(out.deep_view()[q as int] == run@);
                        assert(out.deep_view().contains(run@));
                    }
                    break ;
                }
                q = q + 1;
            }
            if !dup {
                proof {
                    if out.deep_view().contains(run@) {
                        let t = choose|t: int|
                            0 <= t < out.deep_view().len() && out.deep_view()[t] == run@;
                        assert(false);
                    }
                }
                let ghost out_pre = out.deep_view();
                out.push(run_str);
                proof {
                    assert(out.deep_view() =~= out_pre.push(run@));
                }
            }
        }
        cur = j;
    }
}

/// The file paths named in `input` under the default extensions.
pub fn detect_file_paths(input: &str) -> (r: Vec<String>)
    ensures
        r.deep_view() == spec_detect_paths(
            input@,
            seq![
                "rs"@, "toml"@, "md"@, "json"@, "yaml"@, "yml"@, "ts"@, "js"@, "py"@, "go"@,
                "sh"@, "txt"@, "c"@, "cpp"@, "h"@, "java"@, "cs"@,
            ],
        ),
{
    let defaults = default_extensions();
    detect_file_paths_with_exts(input, &defaults)
}

} // verus!
