//! Context budgeting: token estimation and byte-accurate truncation that
//! never splits a UTF-8 multi-byte sequence.
//!
//! A token is estimated as three bytes of UTF-8 text, rounded up. A file
//! that must be truncated keeps a head portion and a tail portion, joined
//! by a visible marker, each cut on a character boundary.

use vstd::prelude::*;
use vstd::string::StringSliceAdditionalSpecFns;
use vstd::string::StrSliceExecFns;
use vstd::string::StringExecFns;
use vstd::utf8::{encode_scalar, encode_utf8, is_scalar};

verus! {

/// Estimated token count of a text of `bytes` bytes: `ceil(bytes / 3)`.
pub open spec fn spec_estimate_tokens(bytes: nat) -> nat {
    (bytes + 2) / 3
}

/// The number of UTF-8 bytes of a character sequence.
pub open spec fn text_bytes(s: Seq<char>) -> nat {
    encode_utf8(s).len()
}

/// The number of UTF-8 bytes of one character.
pub open spec fn char_bytes(c: char) -> nat {
    encode_scalar(c as u32).len()
}

/// Estimate the token count of `text` as one token per three UTF-8 bytes,
/// rounded up.
pub fn estimate_tokens(text: &str) -> (r: usize)
    ensures
        r == spec_estimate_tokens(text.spec_bytes().len()),
{
    let bytes = text.as_bytes();
    let n = bytes.len();
    n / 3 + if n % 3 == 0 { 0 } else { 1 }
}

/// The UTF-8 byte width of one character: 1 to 4, by code point range.
pub fn char_utf8_len(c: char) -> (r: usize)
    ensures
        r == char_bytes(c),
        1 <= r <= 4,
{
    proof {
        vstd::utf8::char_is_scalar(c);
        assert(is_scalar(c as u32));
    }
    let u = c as u32;
    if u < 0x80 {
        1
    } else if u < 0x800 {
        2
    } else if u < 0x10000 {
        3
    } else {
        4
    }
}

/// UTF-8 encoding distributes over concatenation.
pub proof fn lemma_encode_utf8_concat(a: Seq<char>, b: Seq<char>)
    ensures
        encode_utf8(a + b) == encode_utf8(a) + encode_utf8(b),
    decreases a.len(),
{
    if a.len() == 0 {
        assert(a + b =~= b);
        assert(encode_utf8(a) + encode_utf8(b) =~= encode_utf8(b));
    } else {
        lemma_encode_utf8_concat(a.drop_first(), b);
        assert((a + b).drop_first() =~= a.drop_first() + b);
        assert(encode_utf8(a + b) =~= encode_utf8(a) + encode_utf8(b));
    }
}

/// The encoding of a single character is the encoding of its scalar.
pub proof fn lemma_encode_utf8_singleton(c: char)
    ensures
        encode_utf8(seq![c]) == encode_scalar(c as u32),
        text_bytes(seq![c]) == char_bytes(c),
{
    let q = seq![c];
    assert(q[0] == c);
    assert(q.drop_first() =~= Seq::<char>::empty());
    assert(encode_utf8(q.drop_first()) =~= Seq::<u8>::empty());
    assert(encode_utf8(q) == encode_scalar(q[0] as u32) + encode_utf8(q.drop_first()));
    assert(encode_scalar(c as u32) + Seq::<u8>::empty() =~= encode_scalar(c as u32));
}

/// The byte count of one more character.
pub proof fn lemma_text_bytes_take_succ(s: Seq<char>, i: int)
    requires
        0 <= i < s.len(),
    ensures
        text_bytes(s.take(i + 1)) == text_bytes(s.take(i)) + char_bytes(s[i]),
{
    lemma_encode_utf8_concat(s.take(i), seq![s[i]]);
    assert(s.take(i + 1) =~= s.take(i) + seq![s[i]]);
    lemma_encode_utf8_singleton(s[i]);
}

/// A text splits into the bytes of a prefix and the bytes of the rest.
pub proof fn lemma_text_bytes_split(s: Seq<char>, i: int)
    requires
        0 <= i <= s.len(),
    ensures
        text_bytes(s) == text_bytes(s.take(i)) + text_bytes(s.skip(i)),
{
    lemma_encode_utf8_concat(s.take(i), s.skip(i));
    assert(s.take(i) + s.skip(i) =~= s);
}

/// The longest prefix of `text`, cut on a character boundary, whose UTF-8
/// encoding fits in `max_bytes` bytes. Never splits a multi-byte sequence:
/// the result is a whole-character prefix of `text`.
pub fn take_head_by_bytes<'a>(text: &'a str, max_bytes: usize) -> (r: &'a str)
    ensures
        r@ == text@.take(r@.len() as int),
        is_head_cut(text@, max_bytes as int, r@.len() as int),
        r@.len() == spec_head_len(text@, max_bytes as int),
{
    let n = text.unicode_len();
    let mut k: usize = 0;
    let mut used: usize = 0;
    proof {
        assert(text@.take(0) =~= Seq::<char>::empty());
    }
    while k < n
        invariant
            0 <= k <= n,
            n == text@.len(),
            used == text_bytes(text@.take(k as int)),
            used <= max_bytes,
        decreases n - k,
    {
        let c = text.get_char(k);
        let w = char_utf8_len(c);
        proof {
            lemma_text_bytes_take_succ(text@, k as int);
        }
        if w > max_bytes - used {
            let r = text.substring_char(0, k);
            assert(r@ =~= text@.take(r@.len() as int));
            proof {
                assert(is_head_cut(text@, max_bytes as int, r@.len() as int));
                lemma_head_cut_unique(
                    text@,
                    max_bytes as int,
                    r@.len() as int,
                    spec_head_len(text@, max_bytes as int),
                );
            }
            return r;
        }
        used = used + w;
        k = k + 1;
    }
    let r = text.substring_char(0, n);
    assert(r@ =~= text@.take(r@.len() as int));
    proof {
        assert(is_head_cut(text@, max_bytes as int, r@.len() as int));
        lemma_head_cut_unique(
            text@,
            max_bytes as int,
            r@.len() as int,
            spec_head_len(text@, max_bytes as int),
        );
    }
    r
}

/// The longest suffix of `text`, cut on a character boundary, whose UTF-8
/// encoding fits in `max_bytes` bytes. Never splits a multi-byte sequence:
/// the result is a whole-character suffix of `text`.
pub fn take_tail_by_bytes<'a>(text: &'a str, max_bytes: usize) -> (r: &'a str)
    ensures
        r@ == text@.skip(text@.len() - r@.len()),
        is_tail_cut(text@, max_bytes as int, r@.len() as int),
        r@.len() == spec_tail_len(text@, max_bytes as int),
{
    let n = text.unicode_len();
    // Walk backwards from the end, growing the suffix while it fits.
    let mut k: usize = n;
    let mut used: usize = 0;
    proof {
        assert(text@.skip(n as int) =~= Seq::<char>::empty());
    }
    while k > 0
        invariant
            0 <= k <= n,
            n == text@.len(),
            used == text_bytes(text@.skip(k as int)),
            used <= max_bytes,
        decreases k,
    {
        let c = text.get_char(k - 1);
        let w = char_utf8_len(c);
        proof {
            lemma_text_bytes_split(text@.skip(k - 1), 1);
            assert(text@.skip(k - 1).take(1) =~= seq![text@[k - 1]]);
            assert(text@.skip(k - 1).skip(1) =~= text@.skip(k as int));
            lemma_encode_utf8_singleton(text@[k - 1]);
        }
        if w > max_bytes - used {
            let r = text.substring_char(k, n);
            assert(r@ == text@.skip(text@.len() - r@.len()));
            proof {
                assert(is_tail_cut(text@, max_bytes as int, r@.len() as int));
                lemma_tail_cut_unique(
                    text@,
                    max_bytes as int,
                    r@.len() as int,
                    spec_tail_len(text@, max_bytes as int),
                );
            }
            return r;
        }
        used = used + w;
        k = k - 1;
    }
    let r = text.substring_char(0, n);
    assert(r@ =~= text@.skip(0));
    assert(r@ == text@.skip(text@.len() - r@.len()));
    proof {
        assert(is_tail_cut(text@, max_bytes as int, r@.len() as int));
        lemma_tail_cut_unique(
            text@,
            max_bytes as int,
            r@.len() as int,
            spec_tail_len(text@, max_bytes as int),
        );
    }
    r
}



/// A cut after whole characters never splits a UTF-8 multi-byte
/// sequence: the bytes of a character prefix are a prefix of the
/// text's bytes, and the cut falls on a character boundary of the
/// encoding.
pub proof fn lemma_cut_on_char_boundary(s: Seq<char>, h: int)
    requires
        0 <= h <= s.len(),
    ensures
        encode_utf8(s).take(text_bytes(s.take(h)) as int) == encode_utf8(s.take(h)),
        vstd::utf8::is_char_boundary(encode_utf8(s), text_bytes(s.take(h)) as int),
{
    broadcast use vstd::utf8::encode_utf8_valid_utf8;

    lemma_encode_utf8_concat(s.take(h), s.skip(h));
    assert(s.take(h) + s.skip(h) =~= s);
    let bytes = encode_utf8(s);
    let cut = text_bytes(s.take(h)) as int;
    assert(bytes.take(cut) =~= encode_utf8(s.take(h)));
    if cut == bytes.len() {
        vstd::utf8::is_char_boundary_start_end_of_seq(bytes);
    } else {
        assert(h < s.len()) by {
            if h == s.len() {
                assert(s.skip(h) =~= Seq::<char>::empty());
                assert(encode_utf8(s.skip(h)).len() == 0);
            }
        }
        let c = s[h];
        vstd::utf8::char_is_scalar(c);
        let u = c as u32;
        assert(s.skip(h)[0] == c);
        let first = vstd::utf8::encode_scalar(u)[0];
        assert(bytes[cut] == first) by {
            assert(encode_utf8(s.skip(h))[0] == vstd::utf8::encode_scalar(u)[0]) by {
                assert(encode_utf8(s.skip(h)) == vstd::utf8::encode_scalar(u) + encode_utf8(
                    s.skip(h).drop_first(),
                ));
                assert(vstd::utf8::encode_scalar(u).len() >= 1);
            }
        }
        // The first byte of a scalar's encoding is a leading byte, never
        // a continuation byte.
        assert(!vstd::utf8::is_continuation_byte(first)) by {
            if vstd::utf8::has_width_1_encoding(u) {
                assert(first == vstd::utf8::leading_byte_width_1(u));
                assert((u & 0x7F) < 0x80u32) by (bit_vector);
            } else if vstd::utf8::has_width_2_encoding(u) {
                assert(first == vstd::utf8::leading_byte_width_2(u));
                assert(!(0x80 <= (0xC0u8 | ((u >> 6) & 0x1F) as u8) <= 0xbf)) by (bit_vector);
            } else if vstd::utf8::has_width_3_encoding(u) {
                assert(first == vstd::utf8::leading_byte_width_3(u));
                assert(!(0x80 <= (0xE0u8 | ((u >> 12) & 0x0F) as u8) <= 0xbf)) by (bit_vector);
            } else {
                assert(first == vstd::utf8::leading_byte_width_4(u));
                assert(!(0x80 <= (0xF0u8 | ((u >> 18) & 0x7) as u8) <= 0xbf)) by (bit_vector);
            }
        }
        vstd::utf8::is_char_boundary_iff_not_is_continuation_byte(bytes, cut);
    }
}

/// `h` is where the head cut of `s` under `max` bytes falls: the longest
/// whole-character prefix whose encoding fits in `max` bytes.
pub open spec fn is_head_cut(s: Seq<char>, max: int, h: int) -> bool {
    &&& 0 <= h <= s.len()
    &&& text_bytes(s.take(h)) <= max
    &&& (h < s.len() ==> text_bytes(s.take(h + 1)) > max)
}

/// `t` is where the tail cut of `s` under `max` bytes falls: the longest
/// whole-character suffix whose encoding fits in `max` bytes.
pub open spec fn is_tail_cut(s: Seq<char>, max: int, t: int) -> bool {
    &&& 0 <= t <= s.len()
    &&& text_bytes(s.skip(s.len() - t)) <= max
    &&& (t < s.len() ==> text_bytes(s.skip(s.len() - t - 1)) > max)
}

/// Byte counts of prefixes grow with the prefix.
pub proof fn lemma_text_bytes_take_monotone(s: Seq<char>, a: int, b: int)
    requires
        0 <= a <= b <= s.len(),
    ensures
        text_bytes(s.take(a)) <= text_bytes(s.take(b)),
    decreases b - a,
{
    if a < b {
        lemma_text_bytes_take_monotone(s, a, b - 1);
        lemma_text_bytes_take_succ(s, b - 1);
    }
}

/// Byte counts of suffixes grow as the suffix grows.
pub proof fn lemma_text_bytes_skip_monotone(s: Seq<char>, a: int, b: int)
    requires
        0 <= a <= b <= s.len(),
    ensures
        text_bytes(s.skip(b)) <= text_bytes(s.skip(a)),
    decreases b - a,
{
    if a < b {
        lemma_text_bytes_skip_monotone(s, a + 1, b);
        lemma_text_bytes_split(s.skip(a), 1);
        lemma_encode_utf8_singleton(s[a]);
        assert(s.skip(a).take(1) =~= seq![s[a]]);
        assert(s.skip(a).skip(1) =~= s.skip(a + 1));
    }
}

/// There is only one head cut.
pub proof fn lemma_head_cut_unique(s: Seq<char>, max: int, h1: int, h2: int)
    requires
        is_head_cut(s, max, h1),
        is_head_cut(s, max, h2),
    ensures
        h1 == h2,
{
    if h1 < h2 {
        lemma_text_bytes_take_monotone(s, h1 + 1, h2);
    }
    if h2 < h1 {
        lemma_text_bytes_take_monotone(s, h2 + 1, h1);
    }
}

/// There is only one tail cut.
pub proof fn lemma_tail_cut_unique(s: Seq<char>, max: int, t1: int, t2: int)
    requires
        is_tail_cut(s, max, t1),
        is_tail_cut(s, max, t2),
    ensures
        t1 == t2,
{
    if t1 < t2 {
        lemma_text_bytes_skip_monotone(s, s.len() - t2, s.len() - t1 - 1);
    }
    if t2 < t1 {
        lemma_text_bytes_skip_monotone(s, s.len() - t1, s.len() - t2 - 1);
    }
}

/// The length of the head cut of `s` under `max` bytes.
pub open spec fn spec_head_len(s: Seq<char>, max: int) -> int {
    choose|h: int| is_head_cut(s, max, h)
}

/// The length of the tail cut of `s` under `max` bytes.
pub open spec fn spec_tail_len(s: Seq<char>, max: int) -> int {
    choose|t: int| is_tail_cut(s, max, t)
}

/// The marker that joins the kept head and tail of a truncated file.
pub open spec fn marker_text() -> Seq<char> {
    "\n[...truncated...]\n"@
}

/// Whether a file of content `s` must be cut down under `limit` tokens.
pub open spec fn spec_truncate_truncated(s: Seq<char>, limit: int) -> bool {
    s.len() > 0 && (limit <= 0 || text_bytes(s) > 3 * limit)
}

/// The content kept of a file of content `s` under `limit` tokens: the
/// whole content when it fits, else a head and a tail joined by the
/// marker, cut on character boundaries.
pub open spec fn spec_truncate_content(s: Seq<char>, limit: int) -> Seq<char> {
    let max = 3 * limit;
    let mb = text_bytes(marker_text()) as int;
    if s.len() == 0 || limit <= 0 {
        Seq::empty()
    } else if text_bytes(s) <= max {
        s
    } else if max <= mb {
        s.take(spec_head_len(s, max))
    } else {
        let keep = max - mb;
        let hb = 2 * keep / 3;
        let tb = keep - hb;
        s.take(spec_head_len(s, hb)) + marker_text() + s.skip(s.len() - spec_tail_len(s, tb))
    }
}

/// One file handed to the prompt builder: its content and the path the
/// user wrote.
pub struct FileContent {
    pub content: String,
    pub original_path: String,
}

/// Report that a file's content was cut down (or dropped) to fit the
/// token budget.
pub struct TruncationNotice {
    pub path: String,
    pub original_tokens: usize,
    pub kept_tokens: usize,
}

/// Sum of a sequence of counts.
pub open spec fn sum_usize(s: Seq<usize>) -> int
    decreases s.len(),
{
    if s.len() == 0 {
        0
    } else {
        s[0] + sum_usize(s.drop_first())
    }
}

/// Sums grow by the pushed element.
pub proof fn lemma_sum_usize_push(s: Seq<usize>, x: usize)
    ensures
        sum_usize(s.push(x)) == sum_usize(s) + x,
    decreases s.len(),
{
    let p = s.push(x);
    assert(p.len() == s.len() + 1);
    if s.len() == 0 {
        assert(p[0] == x);
        assert(p.drop_first() =~= Seq::<usize>::empty());
        assert(sum_usize(p.drop_first()) == 0);
        assert(sum_usize(p) == p[0] + sum_usize(p.drop_first()));
        assert(sum_usize(s) == 0);
    } else {
        lemma_sum_usize_push(s.drop_first(), x);
        assert(p[0] == s[0]);
        assert(p.drop_first() =~= s.drop_first().push(x));
        assert(sum_usize(p) == p[0] + sum_usize(p.drop_first()));
        assert(sum_usize(s) == s[0] + sum_usize(s.drop_first()));
    }
}

/// Sums are pointwise monotone and change by the difference at an update.
pub proof fn lemma_sum_usize_update(s: Seq<usize>, i: int, x: usize)
    requires
        0 <= i < s.len(),
    ensures
        sum_usize(s.update(i, x)) == sum_usize(s) - s[i] + x,
    decreases s.len(),
{
    if i == 0 {
        assert(s.update(0, x).drop_first() =~= s.drop_first());
    } else {
        lemma_sum_usize_update(s.drop_first(), i - 1, x);
        assert(s.update(i, x).drop_first() =~= s.drop_first().update(i - 1, x));
    }
}

/// Each element is at most the sum.
pub proof fn lemma_sum_usize_element(s: Seq<usize>, i: int)
    requires
        0 <= i < s.len(),
    ensures
        s[i] <= sum_usize(s),
    decreases s.len(),
{
    lemma_sum_usize_nonneg(s.drop_first());
    if i > 0 {
        lemma_sum_usize_element(s.drop_first(), i - 1);
        assert(s.drop_first()[i - 1] == s[i]);
    }
}

/// Sums of nonnegative counts are nonnegative.
pub proof fn lemma_sum_usize_nonneg(s: Seq<usize>)
    ensures
        sum_usize(s) >= 0,
    decreases s.len(),
{
    if s.len() > 0 {
        lemma_sum_usize_nonneg(s.drop_first());
    }
}

/// The proportional share of `budget` that a file of `tok` tokens gets
/// when `total` tokens compete, rounded down.
pub open spec fn base_share(tok: int, budget: int, total: int) -> int {
    budget * tok / total
}

/// Sum of the rounded-down proportional shares.
pub open spec fn sum_shares(toks: Seq<usize>, budget: int, total: int) -> int
    decreases toks.len(),
{
    if toks.len() == 0 {
        0
    } else {
        base_share(toks[0] as int, budget, total) + sum_shares(toks.drop_first(), budget, total)
    }
}

proof fn lemma_sum_shares_push(toks: Seq<usize>, budget: int, total: int, x: usize)
    ensures
        sum_shares(toks.push(x), budget, total) == sum_shares(toks, budget, total) + base_share(
            x as int,
            budget,
            total,
        ),
    decreases toks.len(),
{
    let p = toks.push(x);
    assert(p.len() == toks.len() + 1);
    if toks.len() == 0 {
        assert(p[0] == x);
        assert(p.drop_first() =~= Seq::<usize>::empty());
        assert(sum_shares(p.drop_first(), budget, total) == 0);
        assert(sum_shares(p, budget, total) == base_share(p[0] as int, budget, total)
            + sum_shares(p.drop_first(), budget, total));
        assert(sum_shares(toks, budget, total) == 0);
    } else {
        lemma_sum_shares_push(toks.drop_first(), budget, total, x);
        assert(p[0] == toks[0]);
        assert(p.drop_first() =~= toks.drop_first().push(x));
        assert(sum_shares(p, budget, total) == base_share(p[0] as int, budget, total)
            + sum_shares(p.drop_first(), budget, total));
        assert(sum_shares(toks, budget, total) == base_share(toks[0] as int, budget, total)
            + sum_shares(toks.drop_first(), budget, total));
    }
}

/// The rounded-down shares lose less than one budget token per file:
/// `total * sum_shares` is within `len * (total - 1)` below `budget * sum`.
proof fn lemma_shares_sum_bounds(toks: Seq<usize>, budget: int, total: int)
    requires
        total > 0,
        budget >= 0,
    ensures
        total * sum_shares(toks, budget, total) <= budget * sum_usize(toks),
        budget * sum_usize(toks) <= total * sum_shares(toks, budget, total) + toks.len() * (total
            - 1),
    decreases toks.len(),
{
    if toks.len() == 0 {
    } else {
        let t0 = toks[0] as int;
        let rest = toks.drop_first();
        lemma_shares_sum_bounds(rest, budget, total);
        let q = budget * t0 / total;
        let p = budget * t0;
        vstd::arithmetic::div_mod::lemma_fundamental_div_mod(p, total);
        vstd::arithmetic::div_mod::lemma_mod_bound(p, total);
        assert(p >= 0) by (nonlinear_arith)
            requires
                budget >= 0,
                t0 >= 0,
                p == budget * t0,
        ;
        assert(total * q <= p <= total * q + (total - 1));
        let sr = sum_shares(rest, budget, total);
        assert(total * (q + sr) == total * q + total * sr) by (nonlinear_arith);
        assert(budget * sum_usize(toks) == p + budget * sum_usize(rest)) by (nonlinear_arith)
            requires
                sum_usize(toks) == t0 + sum_usize(rest),
                p == budget * t0,
        ;
        assert(toks.len() * (total - 1) == (total - 1) + rest.len() * (total - 1))
            by (nonlinear_arith)
            requires
                toks.len() == rest.len() + 1,
        ;
    }
}

/// How many entries are true.
pub open spec fn count_true(s: Seq<bool>) -> int
    decreases s.len(),
{
    if s.len() == 0 {
        0
    } else {
        (if s[0] {
            1int
        } else {
            0int
        }) + count_true(s.drop_first())
    }
}

proof fn lemma_count_true_update(s: Seq<bool>, i: int)
    requires
        0 <= i < s.len(),
        !s[i],
    ensures
        count_true(s.update(i, true)) == count_true(s) + 1,
    decreases s.len(),
{
    if i == 0 {
        assert(s.update(0, true).drop_first() =~= s.drop_first());
    } else {
        lemma_count_true_update(s.drop_first(), i - 1);
        assert(s.update(i, true).drop_first() =~= s.drop_first().update(i - 1, true));
    }
}

proof fn lemma_count_true_bounds(s: Seq<bool>)
    ensures
        0 <= count_true(s) <= s.len(),
    decreases s.len(),
{
    if s.len() > 0 {
        lemma_count_true_bounds(s.drop_first());
    }
}

proof fn lemma_count_true_all(s: Seq<bool>)
    requires
        count_true(s) == s.len(),
    ensures
        forall|i: int| 0 <= i < s.len() ==> s[i],
    decreases s.len(),
{
    if s.len() > 0 {
        lemma_count_true_bounds(s.drop_first());
        lemma_count_true_all(s.drop_first());
        assert forall|i: int| 0 <= i < s.len() implies s[i] by {
            if i > 0 {
                assert(s.drop_first()[i - 1] == s[i]);
            }
        }
    }
}

/// Divide `budget` tokens among files of the given token counts,
/// proportionally to each count and rounded down, then hand the rounding
/// remainder out one token at a time to the largest files first. The
/// resulting allocations consume the budget exactly.
pub fn allocate_budget(tokens: &Vec<usize>, budget: usize) -> (r: Vec<usize>)
    requires
        budget >= 1,
        sum_usize(tokens@) > budget,
    ensures
        r@.len() == tokens@.len(),
        sum_usize(r@) == budget,
        forall|i: int|
            0 <= i < r@.len() ==> {
                let share = base_share(
                    tokens@[i] as int,
                    budget as int,
                    sum_usize(tokens@),
                );
                #[trigger] r@[i] == share || r@[i] == share + 1
            },
        forall|i: int, j: int|
            0 <= i < r@.len() && 0 <= j < r@.len() && #[trigger] r@[i] == base_share(
                tokens@[i] as int,
                budget as int,
                sum_usize(tokens@),
            ) + 1 && #[trigger] r@[j] == base_share(tokens@[j] as int, budget as int, sum_usize(tokens@))
                ==> tokens@[j] <= tokens@[i],
{
    let n = tokens.len();
    let ghost gtotal = sum_usize(tokens@);
    proof {
        lemma_sum_usize_nonneg(tokens@);
    }

    // The running total fits in u128: each count is at most usize::MAX and
    // there are n of them.
    let mut total: u128 = 0;
    let mut idx: usize = 0;
    while idx < n
        invariant
            0 <= idx <= n,
            n == tokens@.len(),
            total == sum_usize(tokens@.take(idx as int)),
            total <= idx as u128 * u64::MAX as u128,
            idx <= usize::MAX as u128,
        decreases n - idx,
    {
        proof {
            assert(tokens@.take(idx as int).push(tokens@[idx as int]) =~= tokens@.take(
                idx as int + 1,
            ));
            lemma_sum_usize_push(tokens@.take(idx as int), tokens@[idx as int]);
        }
        total = total + tokens[idx] as u128;
        idx = idx + 1;
    }
    proof {
        assert(tokens@.take(n as int) =~= tokens@);
    }

    // Rounded-down proportional shares.
    let mut alloc: Vec<usize> = Vec::new();
    let mut allocated: u128 = 0;
    let mut i: usize = 0;
    while i < n
        invariant
            0 <= i <= n,
            n == tokens@.len(),
            gtotal == sum_usize(tokens@),
            gtotal > budget >= 1,
            total == gtotal,
            alloc@.len() == i,
            allocated == sum_shares(tokens@.take(i as int), budget as int, gtotal),
            allocated == sum_usize(alloc@),
            allocated <= budget,
            forall|k: int|
                0 <= k < i ==> alloc@[k] == base_share(tokens@[k] as int, budget as int, gtotal),
        decreases n - i,
    {
        proof {
            assert(budget as u128 <= u64::MAX as u128);
            assert(tokens@[i as int] as u128 <= u64::MAX as u128);
            assert((budget as u128) * (tokens@[i as int] as u128) <= (u64::MAX as u128) * (
            u64::MAX as u128)) by (nonlinear_arith)
                requires
                    budget as u128 <= u64::MAX as u128,
                    tokens@[i as int] as u128 <= u64::MAX as u128,
            ;
            assert(total != 0);
        }
        let share_wide = (budget as u128) * (tokens[i] as u128) / total;
        proof {
            assert((budget as u128) * (tokens@[i as int] as u128) == (budget as int) * (
            tokens@[i as int] as int)) by (nonlinear_arith);
            assert(share_wide == base_share(tokens@[i as int] as int, budget as int, gtotal));
            // Each share is at most the budget.
            let p = (budget as int) * (tokens@[i as int] as int);
            vstd::arithmetic::div_mod::lemma_fundamental_div_mod(p, gtotal);
            lemma_sum_usize_element(tokens@, i as int);
            assert(p <= budget * gtotal) by (nonlinear_arith)
                requires
                    tokens@[i as int] <= gtotal,
                    budget >= 0,
                    p == budget * (tokens@[i as int] as int),
                ;
            assert(p / gtotal <= budget) by (nonlinear_arith)
                requires
                    gtotal > 0,
                    p >= 0,
                    p <= budget * gtotal,
            ;
            assert(tokens@.take(i as int).push(tokens@[i as int]) =~= tokens@.take(i as int + 1));
            lemma_sum_shares_push(tokens@.take(i as int), budget as int, gtotal, tokens@[i as int]);
            lemma_sum_usize_push(alloc@, share_wide as usize);
            // The running sum of shares stays at most the budget.
            lemma_shares_sum_bounds(tokens@.take(i as int + 1), budget as int, gtotal);
            lemma_sum_usize_nonneg(tokens@.skip(i as int + 1));
            lemma_sum_usize_split(tokens@, i as int + 1);
            assert(sum_usize(tokens@.take(i as int + 1)) <= gtotal);
            let ss = sum_shares(tokens@.take(i as int + 1), budget as int, gtotal);
            assert(gtotal * ss <= (budget as int) * sum_usize(tokens@.take(i as int + 1)));
            assert((budget as int) * sum_usize(tokens@.take(i as int + 1)) <= (budget as int)
                * gtotal) by (nonlinear_arith)
                requires
                    budget >= 0,
                    sum_usize(tokens@.take(i as int + 1)) <= gtotal,
            ;
            assert(ss <= budget) by (nonlinear_arith)
                requires
                    gtotal > 0,
                    gtotal * ss <= (budget as int) * gtotal,
            ;
        }
        alloc.push(share_wide as usize);
        allocated = allocated + share_wide;
        i = i + 1;
    }
    proof {
        assert(tokens@.take(n as int) =~= tokens@);
    }

    // The remainder is at most the number of files; hand it out one token
    // at a time, to the largest file without an extra token first.
    let mut rem: usize = (budget as u128 - allocated) as usize;
    let ghost rem0 = rem as int;
    proof {
        lemma_shares_sum_bounds(tokens@, budget as int, gtotal);
        assert((budget as int) * gtotal <= gtotal * sum_shares(tokens@, budget as int, gtotal)
            + tokens@.len() * (gtotal - 1));
        let s = sum_shares(tokens@, budget as int, gtotal);
        assert(s >= budget - tokens@.len()) by (nonlinear_arith)
            requires
                gtotal > 0,
                (budget as int) * gtotal <= gtotal * s + tokens@.len() * (gtotal - 1),
                tokens@.len() >= 0,
        ;
    }
    let mut bumped: Vec<bool> = Vec::new();
    let mut j: usize = 0;
    while j < n
        invariant
            bumped@.len() == j <= n,
            forall|k: int| 0 <= k < j ==> !bumped@[k],
            count_true(bumped@) == 0,
        decreases n - j,
    {
        proof {
            lemma_count_push_false(bumped@);
        }
        bumped.push(false);
        j = j + 1;
    }

    while rem > 0
        invariant
            n == tokens@.len() == alloc@.len() == bumped@.len(),
            gtotal == sum_usize(tokens@),
            gtotal > budget >= 1,
            rem + count_true(bumped@) == rem0,
            rem0 <= n,
            sum_usize(alloc@) == budget - rem,
            forall|k: int|
                0 <= k < n ==> alloc@[k] == base_share(tokens@[k] as int, budget as int, gtotal)
                    + (if bumped@[k] {
                    1int
                } else {
                    0int
                }),
            forall|a: int, b: int|
                0 <= a < n && 0 <= b < n && bumped@[a] && !bumped@[b] ==> tokens@[b] <= tokens@[a],
        decreases rem,
    {
        // Find the largest file that has not received an extra token yet.
        let mut best: usize = 0;
        let mut found: bool = false;
        let mut k: usize = 0;
        while k < n
            invariant
                0 <= k <= n,
                n == tokens@.len() == bumped@.len(),
                found ==> best < k && !bumped@[best as int],
                found ==> forall|m: int|
                    0 <= m < k && !bumped@[m] ==> tokens@[m] <= tokens@[best as int],
                !found ==> forall|m: int| 0 <= m < k ==> bumped@[m],
            decreases n - k,
        {
            if !bumped[k] {
                if !found || tokens[k] > tokens[best] {
                    best = k;
                    found = true;
                }
            }
            k = k + 1;
        }
        proof {
            if !found {
                lemma_count_true_bounds(bumped@);
                assert(count_true(bumped@) <= n);
                // All entries bumped would mean the remainder was zero.
                lemma_count_all_true(bumped@);
                assert(false);
            }
        }
        proof {
            lemma_sum_usize_element(alloc@, best as int);
            lemma_sum_usize_nonneg(alloc@);
            assert(alloc@[best as int] + 1 <= budget);
        }
        let bumped_val = alloc[best] + 1;
        proof {
            lemma_count_true_update(bumped@, best as int);
            lemma_sum_usize_update(alloc@, best as int, bumped_val);
        }
        alloc.set(best, bumped_val);
        bumped.set(best, true);
        rem = rem - 1;
    }
    proof {
        lemma_count_true_bounds(bumped@);
    }
    alloc
}

/// A sequence's sum splits at any point.
proof fn lemma_sum_usize_split(s: Seq<usize>, i: int)
    requires
        0 <= i <= s.len(),
    ensures
        sum_usize(s) == sum_usize(s.take(i)) + sum_usize(s.skip(i)),
    decreases i,
{
    if i == 0 {
        assert(s.take(0) =~= Seq::<usize>::empty());
        assert(s.skip(0) =~= s);
    } else {
        lemma_sum_usize_split(s.drop_first(), i - 1);
        assert(s.take(i).drop_first() =~= s.drop_first().take(i - 1));
        assert(s.skip(i) =~= s.drop_first().skip(i - 1));
    }
}

proof fn lemma_count_push_false(s: Seq<bool>)
    ensures
        count_true(s.push(false)) == count_true(s),
    decreases s.len(),
{
    let p = s.push(false);
    assert(p.len() == s.len() + 1);
    if s.len() == 0 {
        assert(p[0] == false);
        assert(p.drop_first() =~= Seq::<bool>::empty());
        assert(count_true(p.drop_first()) == 0);
        assert(count_true(p) == (if p[0] { 1int } else { 0int }) + count_true(p.drop_first()));
        assert(count_true(s) == 0);
    } else {
        lemma_count_push_false(s.drop_first());
        assert(p[0] == s[0]);
        assert(p.drop_first() =~= s.drop_first().push(false));
        assert(count_true(p) == (if p[0] { 1int } else { 0int }) + count_true(p.drop_first()));
        assert(count_true(s) == (if s[0] { 1int } else { 0int }) + count_true(s.drop_first()));
    }
}

proof fn lemma_count_all_true(s: Seq<bool>)
    requires
        forall|i: int| 0 <= i < s.len() ==> s[i],
    ensures
        count_true(s) == s.len(),
    decreases s.len(),
{
    if s.len() > 0 {
        assert forall|i: int| 0 <= i < s.drop_first().len() implies s.drop_first()[i] by {
            assert(s.drop_first()[i] == s[i + 1]);
        }
        lemma_count_all_true(s.drop_first());
    }
}



/// Tokens kept of a file of content `s` under `limit` tokens.
pub open spec fn spec_truncate_kept(s: Seq<char>, limit: int) -> nat {
    spec_estimate_tokens(text_bytes(spec_truncate_content(s, limit)))
}

/// Cut a file's content down to `limit_tokens` tokens (three bytes per
/// token). A file that fits is returned whole. One that does not keeps
/// two thirds of the byte allowance from its head and one third from its
/// tail, joined by a visible marker; both cuts fall on character
/// boundaries. Returns the kept content, its token estimate, and whether
/// anything was cut.
pub fn truncate_file_content(content: &str, limit_tokens: usize) -> (r: (String, usize, bool))
    ensures
        r.0@ == spec_truncate_content(content@, limit_tokens as int),
        r.1 == spec_truncate_kept(content@, limit_tokens as int),
        r.2 == spec_truncate_truncated(content@, limit_tokens as int),
{
    let cb = content.as_bytes().len();
    if cb == 0 || limit_tokens == 0 {
        proof {
            if content@.len() > 0 {
                lemma_text_bytes_take_succ(content@, 0);
                assert(text_bytes(content@.take(1)) >= 1);
                lemma_text_bytes_take_monotone(content@, 1, content@.len() as int);
                assert(content@.take(content@.len() as int) =~= content@);
            } else {
                assert(content@.take(content@.len() as int) =~= content@);
            }
        }
        return (String::new(), 0, cb != 0);
    }
    // From here the content is nonempty and the limit positive.
    let max_bytes = if limit_tokens > usize::MAX / 3 {
        usize::MAX
    } else {
        limit_tokens * 3
    };
    proof {
        assert(limit_tokens > usize::MAX / 3 ==> 3 * limit_tokens > usize::MAX as int);
    }
    if cb <= max_bytes {
        assert(text_bytes(content@) <= 3 * limit_tokens);
        return (content.to_owned(), estimate_tokens(content), false);
    }
    let marker = "\n[...truncated...]\n";
    let mb = marker.as_bytes().len();
    assert(mb == text_bytes(marker_text()));
    if max_bytes <= mb {
        let head = take_head_by_bytes(content, max_bytes);
        return (head.to_owned(), estimate_tokens(head), true);
    }
    let keep = max_bytes - mb;
    let q = keep / 3;
    let rmod = keep % 3;
    let hb = q * 2 + rmod * 2 / 3;
    proof {
        assert(hb == 2 * (keep as int) / 3) by (nonlinear_arith)
            requires
                keep == 3 * q + rmod,
                0 <= rmod < 3,
                hb == q * 2 + rmod * 2 / 3,
                q >= 0,
        ;
        assert(hb <= keep);
    }
    let tb = keep - hb;
    let head = take_head_by_bytes(content, hb);
    let tail = take_tail_by_bytes(content, tb);
    let mut out = head.to_owned();
    out.append(marker);
    out.append(tail);
    let kept = estimate_tokens(out.as_str());
    (out, kept, true)
}

/// Sum of the estimated token counts of a list of files.
pub open spec fn sum_file_tokens(files: Seq<FileContent>) -> int
    decreases files.len(),
{
    if files.len() == 0 {
        0
    } else {
        spec_estimate_tokens(text_bytes(files[0].content@)) + sum_file_tokens(files.drop_first())
    }
}

/// The trimmed files that come out of distributing `alloc` over `files`:
/// a file allocated zero tokens is dropped, any other is cut to its
/// allocation. Each entry is a (path, content) pair.
pub open spec fn spec_trim_outputs(files: Seq<FileContent>, alloc: Seq<usize>) -> Seq<
    (Seq<char>, Seq<char>),
>
    decreases files.len(),
{
    if files.len() == 0 || alloc.len() == 0 {
        Seq::empty()
    } else {
        let rest = spec_trim_outputs(files.drop_first(), alloc.drop_first());
        if alloc[0] == 0 {
            rest
        } else {
            seq![
                (
                    files[0].original_path@,
                    spec_truncate_content(files[0].content@, alloc[0] as int),
                ),
            ] + rest
        }
    }
}

/// The truncation notices that come out of distributing `alloc` over
/// `files`: one per dropped file (kept 0) and one per file that was cut.
/// Each entry is a (path, original tokens, kept tokens) triple.
pub open spec fn spec_trim_notices(files: Seq<FileContent>, alloc: Seq<usize>) -> Seq<
    (Seq<char>, int, int),
>
    decreases files.len(),
{
    if files.len() == 0 || alloc.len() == 0 {
        Seq::empty()
    } else {
        let rest = spec_trim_notices(files.drop_first(), alloc.drop_first());
        let orig = spec_estimate_tokens(text_bytes(files[0].content@)) as int;
        if alloc[0] == 0 {
            seq![(files[0].original_path@, orig, 0int)] + rest
        } else if spec_truncate_truncated(files[0].content@, alloc[0] as int) {
            seq![
                (
                    files[0].original_path@,
                    orig,
                    spec_truncate_kept(files[0].content@, alloc[0] as int) as int,
                ),
            ] + rest
        } else {
            rest
        }
    }
}

proof fn lemma_trim_outputs_snoc(files: Seq<FileContent>, alloc: Seq<usize>, f: FileContent, a: usize)
    requires
        files.len() == alloc.len(),
    ensures
        spec_trim_outputs(files.push(f), alloc.push(a)) == spec_trim_outputs(files, alloc) + (
        if a == 0 {
            Seq::<(Seq<char>, Seq<char>)>::empty()
        } else {
            seq![(f.original_path@, spec_truncate_content(f.content@, a as int))]
        }),
    decreases files.len(),
{
    let fp = files.push(f);
    let ap = alloc.push(a);
    if files.len() == 0 {
        assert(fp[0] == f);
        assert(ap[0] == a);
        assert(fp.drop_first() =~= Seq::<FileContent>::empty());
        assert(ap.drop_first() =~= Seq::<usize>::empty());
        assert(spec_trim_outputs(fp.drop_first(), ap.drop_first()) =~= Seq::<
            (Seq<char>, Seq<char>),
        >::empty());
        assert(spec_trim_outputs(files, alloc) =~= Seq::<(Seq<char>, Seq<char>)>::empty());
        if a == 0 {
            assert(spec_trim_outputs(fp, ap) =~= spec_trim_outputs(files, alloc) + Seq::<
                (Seq<char>, Seq<char>),
            >::empty());
        } else {
            assert(spec_trim_outputs(fp, ap) =~= spec_trim_outputs(files, alloc) + seq![
                (f.original_path@, spec_truncate_content(f.content@, a as int)),
            ]);
        }
    } else {
        lemma_trim_outputs_snoc(files.drop_first(), alloc.drop_first(), f, a);
        assert(fp[0] == files[0]);
        assert(ap[0] == alloc[0]);
        assert(fp.drop_first() =~= files.drop_first().push(f));
        assert(ap.drop_first() =~= alloc.drop_first().push(a));
        if alloc[0] == 0 {
        } else {
            assert(seq![
                (
                    files[0].original_path@,
                    spec_truncate_content(files[0].content@, alloc[0] as int),
                ),
            ] + (spec_trim_outputs(files.drop_first(), alloc.drop_first()) + (if a == 0 {
                Seq::<(Seq<char>, Seq<char>)>::empty()
            } else {
                seq![(f.original_path@, spec_truncate_content(f.content@, a as int))]
            })) =~= (seq![
                (
                    files[0].original_path@,
                    spec_truncate_content(files[0].content@, alloc[0] as int),
                ),
            ] + spec_trim_outputs(files.drop_first(), alloc.drop_first())) + (if a == 0 {
                Seq::<(Seq<char>, Seq<char>)>::empty()
            } else {
                seq![(f.original_path@, spec_truncate_content(f.content@, a as int))]
            }));
        }
    }
}

proof fn lemma_trim_notices_snoc(files: Seq<FileContent>, alloc: Seq<usize>, f: FileContent, a: usize)
    requires
        files.len() == alloc.len(),
    ensures
        spec_trim_notices(files.push(f), alloc.push(a)) == spec_trim_notices(files, alloc) + (
        if a == 0 {
            seq![
                (f.original_path@, spec_estimate_tokens(text_bytes(f.content@)) as int, 0int),
            ]
        } else if spec_truncate_truncated(f.content@, a as int) {
            seq![
                (
                    f.original_path@,
                    spec_estimate_tokens(text_bytes(f.content@)) as int,
                    spec_truncate_kept(f.content@, a as int) as int,
                ),
            ]
        } else {
            Seq::<(Seq<char>, int, int)>::empty()
        }),
    decreases files.len(),
{
    let fp = files.push(f);
    let ap = alloc.push(a);
    let tailpart = if a == 0 {
        seq![(f.original_path@, spec_estimate_tokens(text_bytes(f.content@)) as int, 0int)]
    } else if spec_truncate_truncated(f.content@, a as int) {
        seq![
            (
                f.original_path@,
                spec_estimate_tokens(text_bytes(f.content@)) as int,
                spec_truncate_kept(f.content@, a as int) as int,
            ),
        ]
    } else {
        Seq::<(Seq<char>, int, int)>::empty()
    };
    if files.len() == 0 {
        assert(fp[0] == f);
        assert(ap[0] == a);
        assert(fp.drop_first() =~= Seq::<FileContent>::empty());
        assert(ap.drop_first() =~= Seq::<usize>::empty());
        assert(spec_trim_notices(fp.drop_first(), ap.drop_first()) =~= Seq::<
            (Seq<char>, int, int),
        >::empty());
        assert(spec_trim_notices(files, alloc) =~= Seq::<(Seq<char>, int, int)>::empty());
        assert(spec_trim_notices(fp, ap) =~= spec_trim_notices(files, alloc) + tailpart);
    } else {
        lemma_trim_notices_snoc(files.drop_first(), alloc.drop_first(), f, a);
        assert(fp[0] == files[0]);
        assert(ap[0] == alloc[0]);
        assert(fp.drop_first() =~= files.drop_first().push(f));
        assert(ap.drop_first() =~= alloc.drop_first().push(a));
        let rest = spec_trim_notices(files.drop_first(), alloc.drop_first());
        let orig = spec_estimate_tokens(text_bytes(files[0].content@)) as int;
        if alloc[0] == 0 {
            assert(seq![(files[0].original_path@, orig, 0int)] + (rest + tailpart) =~= (seq![
                (files[0].original_path@, orig, 0int),
            ] + rest) + tailpart);
        } else if spec_truncate_truncated(files[0].content@, alloc[0] as int) {
            let head0 = seq![
                (
                    files[0].original_path@,
                    orig,
                    spec_truncate_kept(files[0].content@, alloc[0] as int) as int,
                ),
            ];
            assert(head0 + (rest + tailpart) =~= (head0 + rest) + tailpart);
        }
    }
}

proof fn lemma_sum_file_tokens_split(files: Seq<FileContent>, i: int)
    requires
        0 <= i <= files.len(),
    ensures
        sum_file_tokens(files) == sum_file_tokens(files.take(i)) + sum_file_tokens(files.skip(i)),
    decreases i,
{
    if i == 0 {
        assert(files.take(0) =~= Seq::<FileContent>::empty());
        assert(files.skip(0) =~= files);
    } else {
        lemma_sum_file_tokens_split(files.drop_first(), i - 1);
        assert(files.take(i).drop_first() =~= files.drop_first().take(i - 1));
        assert(files.take(i)[0] == files[0]);
        assert(files.skip(i) =~= files.drop_first().skip(i - 1));
    }
}

proof fn lemma_sum_file_tokens_nonneg(files: Seq<FileContent>)
    ensures
        sum_file_tokens(files) >= 0,
    decreases files.len(),
{
    if files.len() > 0 {
        lemma_sum_file_tokens_nonneg(files.drop_first());
    }
}

/// Relate a token vector to the files it was measured from.
spec fn toks_match(files: Seq<FileContent>, toks: Seq<usize>) -> bool {
    &&& toks.len() == files.len()
    &&& forall|k: int|
        0 <= k < files.len() ==> toks[k] == spec_estimate_tokens(text_bytes(
            #[trigger] files[k].content@,
        ))
}

proof fn lemma_toks_sum(files: Seq<FileContent>, toks: Seq<usize>)
    requires
        toks_match(files, toks),
    ensures
        sum_usize(toks) == sum_file_tokens(files),
    decreases files.len(),
{
    if files.len() > 0 {
        assert(toks_match(files.drop_first(), toks.drop_first())) by {
            assert(forall|k: int|
                0 <= k < files.drop_first().len() ==> #[trigger] files.drop_first()[k]
                    == files[k + 1] && toks.drop_first()[k] == toks[k + 1]);
        }
        lemma_toks_sum(files.drop_first(), toks.drop_first());
    }
}

/// What `truncate_files_to_budget` guarantees: with no files nothing
/// comes back; with no budget every file is dropped and reported; when
/// everything fits the files pass through unchanged; otherwise an
/// exact proportional allocation of the whole budget drives the
/// per-file truncation and the notices: each file gets its rounded-down
/// share or one more, the rounding leftovers go to the largest files
/// first, and the allocations sum to the budget exactly.
pub open spec fn spec_truncation_ok(
    files: Seq<FileContent>,
    budget_tokens: int,
    outs: Seq<FileContent>,
    notices: Seq<TruncationNotice>,
) -> bool {
    &&& (files.len() == 0 ==> outs.len() == 0 && notices.len() == 0)
    &&& (files.len() > 0 && budget_tokens == 0 ==> {
        &&& outs.len() == 0
        &&& notices.len() == files.len()
        &&& forall|i: int|
            0 <= i < files.len() ==> (#[trigger] notices[i].path@ == files[i].original_path@
                && notices[i].original_tokens == spec_estimate_tokens(text_bytes(
                files[i].content@,
            )) && notices[i].kept_tokens == 0)
    })
    &&& (files.len() > 0 && budget_tokens > 0 && sum_file_tokens(files) <= budget_tokens ==> {
        &&& outs.len() == files.len()
        &&& forall|i: int|
            0 <= i < files.len() ==> (#[trigger] outs[i].original_path@
                == files[i].original_path@ && outs[i].content@ == files[i].content@)
        &&& notices.len() == 0
    })
    &&& (files.len() > 0 && budget_tokens > 0 && sum_file_tokens(files) > budget_tokens
        ==> exists|alloc: Seq<usize>|
        {
            &&& alloc.len() == files.len()
            &&& sum_usize(alloc) == budget_tokens
            &&& (forall|i: int|
                0 <= i < alloc.len() ==> {
                    let share = base_share(
                        spec_estimate_tokens(text_bytes(#[trigger] files[i].content@)) as int,
                        budget_tokens,
                        sum_file_tokens(files),
                    );
                    alloc[i] == share || alloc[i] == share + 1
                })
            &&& (forall|i: int, j: int|
                0 <= i < alloc.len() && 0 <= j < alloc.len() && #[trigger] alloc[i] == base_share(
                    spec_estimate_tokens(text_bytes(files[i].content@)) as int,
                    budget_tokens,
                    sum_file_tokens(files),
                ) + 1 && #[trigger] alloc[j] == base_share(
                    spec_estimate_tokens(text_bytes(files[j].content@)) as int,
                    budget_tokens,
                    sum_file_tokens(files),
                ) ==> spec_estimate_tokens(text_bytes(files[j].content@)) <= spec_estimate_tokens(
                    text_bytes(files[i].content@),
                ))
            &&& outs.len() == spec_trim_outputs(files, alloc).len()
            &&& (forall|k: int|
                0 <= k < outs.len() ==> (#[trigger] outs[k].original_path@, outs[k].content@)
                    == spec_trim_outputs(files, alloc)[k])
            &&& notices.len() == spec_trim_notices(files, alloc).len()
            &&& (forall|k: int|
                0 <= k < notices.len() ==> (
                    #[trigger] notices[k].path@,
                    notices[k].original_tokens as int,
                    notices[k].kept_tokens as int,
                ) == spec_trim_notices(files, alloc)[k])
        })
}

/// Distribute `budget_tokens` over `files` and cut each file to its
/// allocation. A file that fits wholly is kept as it is; when the files
/// exceed the budget, the budget is split proportionally (largest
/// remainders to the largest files) and consumed exactly; a file
/// allocated nothing is dropped and reported.
pub fn truncate_files_to_budget(files: &Vec<FileContent>, budget_tokens: usize) -> (r: (
    Vec<FileContent>,
    Vec<TruncationNotice>,
))
    requires
        sum_file_tokens(files@) <= usize::MAX,
    ensures
        spec_truncation_ok(files@, budget_tokens as int, r.0@, r.1@),
{
    let n = files.len();
    if n == 0 {
        return (Vec::new(), Vec::new());
    }

    // Measure each file.
    let mut toks: Vec<usize> = Vec::new();
    let mut total: usize = 0;
    let mut i: usize = 0;
    while i < n
        invariant
            0 <= i <= n,
            n == files@.len(),
            sum_file_tokens(files@) <= usize::MAX,
            toks@.len() == i,
            forall|k: int|
                0 <= k < i ==> toks@[k] == spec_estimate_tokens(text_bytes(
                    #[trigger] files@[k].content@,
                )),
            total == sum_file_tokens(files@.take(i as int)),
        decreases n - i,
    {
        let t = estimate_tokens(files[i].content.as_str());
        proof {
            lemma_sum_file_tokens_split(files@, i as int + 1);
            lemma_sum_file_tokens_split(files@.take(i as int + 1), i as int);
            assert(files@.take(i as int + 1).take(i as int) =~= files@.take(i as int));
            assert(files@.take(i as int + 1).skip(i as int) =~= seq![files@[i as int]]);
            let single = seq![files@[i as int]];
            assert(single[0] == files@[i as int]);
            assert(single.drop_first() =~= Seq::<FileContent>::empty());
            assert(sum_file_tokens(single.drop_first()) == 0);
            assert(sum_file_tokens(single) == spec_estimate_tokens(text_bytes(
                files@[i as int].content@,
            )) + sum_file_tokens(single.drop_first()));
            lemma_sum_file_tokens_nonneg(files@.skip(i as int + 1));
        }
        total = total + t;
        toks.push(t);
        i = i + 1;
    }
    proof {
        assert(files@.take(n as int) =~= files@);
        lemma_toks_sum(files@, toks@);
    }

    if budget_tokens == 0 {
        let mut notices: Vec<TruncationNotice> = Vec::new();
        let mut j: usize = 0;
        while j < n
            invariant
                0 <= j <= n,
                n == files@.len(),
                notices@.len() == j,
                forall|k: int|
                    0 <= k < j ==> (#[trigger] notices@[k].path@ == files@[k].original_path@
                        && notices@[k].original_tokens == spec_estimate_tokens(text_bytes(
                        files@[k].content@,
                    )) && notices@[k].kept_tokens == 0),
            decreases n - j,
        {
            let t = estimate_tokens(files[j].content.as_str());
            notices.push(
                TruncationNotice {
                    path: files[j].original_path.clone(),
                    original_tokens: t,
                    kept_tokens: 0,
                },
            );
            j = j + 1;
        }
        return (Vec::new(), notices);
    }

    if total <= budget_tokens {
        let mut out: Vec<FileContent> = Vec::new();
        let mut j: usize = 0;
        while j < n
            invariant
                0 <= j <= n,
                n == files@.len(),
                out@.len() == j,
                forall|k: int|
                    0 <= k < j ==> (#[trigger] out@[k].original_path@ == files@[k].original_path@
                        && out@[k].content@ == files@[k].content@),
            decreases n - j,
        {
            out.push(
                FileContent {
                    content: files[j].content.clone(),
                    original_path: files[j].original_path.clone(),
                },
            );
            proof {
                assert(out@[j as int].original_path@ == files@[j as int].original_path@);
                assert(out@[j as int].content@ == files@[j as int].content@);
            }
            j = j + 1;
        }
        return (out, Vec::new());
    }

    let alloc = allocate_budget(&toks, budget_tokens);
    let mut out: Vec<FileContent> = Vec::new();
    let mut notices: Vec<TruncationNotice> = Vec::new();
    let mut j: usize = 0;
    proof {
        assert(spec_trim_outputs(files@.take(0), alloc@.take(0)) =~= Seq::<
            (Seq<char>, Seq<char>),
        >::empty());
        assert(spec_trim_notices(files@.take(0), alloc@.take(0)) =~= Seq::<
            (Seq<char>, int, int),
        >::empty());
    }
    while j < n
        invariant
            0 <= j <= n,
            n == files@.len() == alloc@.len(),
            toks_match(files@, toks@),
            out@.len() == spec_trim_outputs(files@.take(j as int), alloc@.take(j as int)).len(),
            forall|k: int|
                0 <= k < out@.len() ==> (#[trigger] out@[k].original_path@, out@[k].content@)
                    == spec_trim_outputs(files@.take(j as int), alloc@.take(j as int))[k],
            notices@.len() == spec_trim_notices(files@.take(j as int), alloc@.take(j as int)).len(),
            forall|k: int|
                0 <= k < notices@.len() ==> (
                    #[trigger] notices@[k].path@,
                    notices@[k].original_tokens as int,
                    notices@[k].kept_tokens as int,
                ) == spec_trim_notices(files@.take(j as int), alloc@.take(j as int))[k],
        decreases n - j,
    {
        proof {
            assert(files@.take(j as int + 1) =~= files@.take(j as int).push(files@[j as int]));
            assert(alloc@.take(j as int + 1) =~= alloc@.take(j as int).push(alloc@[j as int]));
            lemma_trim_outputs_snoc(
                files@.take(j as int),
                alloc@.take(j as int),
                files@[j as int],
                alloc@[j as int],
            );
            lemma_trim_notices_snoc(
                files@.take(j as int),
                alloc@.take(j as int),
                files@[j as int],
                alloc@[j as int],
            );
        }
        let limit = alloc[j];
        if limit == 0 {
            let t = estimate_tokens(files[j].content.as_str());
            notices.push(
                TruncationNotice {
                    path: files[j].original_path.clone(),
                    original_tokens: t,
                    kept_tokens: 0,
                },
            );
        } else {
            let t = estimate_tokens(files[j].content.as_str());
            let (content, kept, truncated) = truncate_file_content(
                files[j].content.as_str(),
                limit,
            );
            if truncated {
                notices.push(
                    TruncationNotice {
                        path: files[j].original_path.clone(),
                        original_tokens: t,
                        kept_tokens: kept,
                    },
                );
            }
            out.push(
                FileContent { content, original_path: files[j].original_path.clone() },
            );
        }
        j = j + 1;
    }
    proof {
        assert(files@.take(n as int) =~= files@);
        assert(alloc@.take(n as int) =~= alloc@);
        lemma_toks_sum(files@, toks@);
    }
    (out, notices)
}

} // verus!
