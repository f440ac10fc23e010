//! A JSON document held as plain data.
//!
//! Tool-call arguments, JSON-RPC message bodies and tool schemas all travel
//! through this type; the protocol and detector logic reads and builds it
//! directly. Parsing raw text into it relies on `serde_json`; printing it
//! back to text is done here, exactly as the spec functions `json_text`
//! (compact, for the wire) and `json_text_pretty` (for display) state.

use vstd::prelude::*;
use vstd::string::StringExecFns;
use crate::text::{chars_to_string, str_to_chars};

verus! {

/// Mathematical model of a JSON document.
#[verifier::ext_equal]
pub enum JVal {
    Null,
    Bool(bool),
    Int(i64),
    /// A number that does not fit `i64` (for example a fraction), kept as
    /// its literal text.
    Num(Seq<char>),
    Str(Seq<char>),
    Arr(Seq<JVal>),
    Obj(Seq<(Seq<char>, JVal)>),
}

/// A JSON document as plain data. Object members keep their order.
pub enum JsonValue {
    Null,
    Bool(bool),
    Int(i64),
    /// A number that does not fit `i64`, kept as its literal text.
    Num(String),
    Str(String),
    Arr(Vec<JsonValue>),
    Obj(Vec<(String, JsonValue)>),
}

/// The model of a JSON value.
pub open spec fn jval_of(v: JsonValue) -> JVal
    decreases v, 2int,
{
    match v {
        JsonValue::Null => JVal::Null,
        JsonValue::Bool(b) => JVal::Bool(b),
        JsonValue::Int(i) => JVal::Int(i),
        JsonValue::Num(s) => JVal::Num(s@),
        JsonValue::Str(s) => JVal::Str(s@),
        JsonValue::Arr(a) => {
            proof {
                assert(decreases_to!(v => a));
                assert(decreases_to!(a => a@));
            }
            JVal::Arr(elems_view(a@))
        },
        JsonValue::Obj(o) => {
            proof {
                assert(decreases_to!(v => o));
                assert(decreases_to!(o => o@));
            }
            JVal::Obj(members_view(o@))
        },
    }
}

/// The model of an array's element vector.
pub open spec fn elems_view(a: Seq<JsonValue>) -> Seq<JVal>
    decreases a, 1int,
{
    if a.len() == 0 {
        Seq::empty()
    } else {
        proof {
            assert(decreases_to!(a => a[0]));
            assert(decreases_to!(a => a.drop_first()));
        }
        seq![jval_of(a[0])] + elems_view(a.drop_first())
    }
}

/// The model of an object's member vector.
pub open spec fn members_view(o: Seq<(String, JsonValue)>) -> Seq<(Seq<char>, JVal)>
    decreases o, 1int,
{
    if o.len() == 0 {
        Seq::empty()
    } else {
        proof {
            assert(decreases_to!(o => o[0]));
            assert(decreases_to!(o[0] => o[0].1));
            assert(decreases_to!(o => o.drop_first()));
        }
        seq![(o[0].0@, jval_of(o[0].1))] + members_view(o.drop_first())
    }
}

impl DeepView for JsonValue {
    type V = JVal;

    open spec fn deep_view(&self) -> JVal {
        jval_of(*self)
    }
}

/// The element view is pointwise.
pub proof fn lemma_elems_view(a: Seq<JsonValue>)
    ensures
        elems_view(a).len() == a.len(),
        forall|i: int| 0 <= i < a.len() ==> elems_view(a)[i] == jval_of(a[i]),
    decreases a.len(),
{
    if a.len() > 0 {
        lemma_elems_view(a.drop_first());
    }
}

/// The member view is pointwise.
pub proof fn lemma_members_view(o: Seq<(String, JsonValue)>)
    ensures
        members_view(o).len() == o.len(),
        forall|i: int|
            0 <= i < o.len() ==> members_view(o)[i] == (o[i].0@, jval_of(o[i].1)),
    decreases o.len(),
{
    if o.len() > 0 {
        lemma_members_view(o.drop_first());
    }
}

/// The value of the first member named `key`, if any.
pub open spec fn spec_obj_get(members: Seq<(Seq<char>, JVal)>, key: Seq<char>) -> Option<JVal>
    decreases members.len(),
{
    if members.len() == 0 {
        Option::None
    } else if members[0].0 == key {
        Option::Some(members[0].1)
    } else {
        spec_obj_get(members.drop_first(), key)
    }
}

impl JsonValue {
    /// Look up the first member named `key` of an object; `None` when this
    /// value is not an object or has no such member.
    pub fn get<'a>(&'a self, key: &str) -> (r: Option<&'a JsonValue>)
        ensures
            match self.deep_view() {
                JVal::Obj(members) => match r {
                    Option::Some(v) => spec_obj_get(members, key@) == Option::Some(v.deep_view()),
                    Option::None => spec_obj_get(members, key@) is None,
                },
                _ => r is None,
            },
    {
        match self {
            JsonValue::Obj(members) => {
                let ghost mv = members_view(members@);
                proof {
                    lemma_members_view(members@);
                }
                assert(self.deep_view() == JVal::Obj(mv));
                let n = members.len();
                assert(mv.skip(0) =~= mv);
                for i in 0..n
                    invariant
                        n == members@.len(),
                        mv == members_view(members@),
                        mv.len() == n,
                        forall|j: int|
                            0 <= j < n ==> mv[j] == (members@[j].0@, jval_of(members@[j].1)),
                        self.deep_view() == JVal::Obj(mv),
                        spec_obj_get(mv, key@) == spec_obj_get(mv.skip(i as int), key@),
                {
                    assert(mv.skip(i as int)[0] == mv[i as int]);
                    if members[i].0.as_str().eq(key) {
                        return Some(&members[i].1);
                    }
                    assert(mv.skip(i as int).drop_first() =~= mv.skip(i + 1));
                }
                assert(mv.skip(n as int) =~= Seq::<(Seq<char>, JVal)>::empty());
                None
            },
            _ => None,
        }
    }

    /// The borrowed string when this value is a string.
    pub fn as_str<'a>(&'a self) -> (r: Option<&'a String>)
        ensures
            match self.deep_view() {
                JVal::Str(s) => r matches Some(v) && v@ == s,
                _ => r is None,
            },
    {
        match self {
            JsonValue::Str(s) => Some(s),
            _ => None,
        }
    }
}



/// The character for a hex digit value (lower case).
pub open spec fn hex_digit(d: int) -> char {
    if d == 0 { '0' } else if d == 1 { '1' } else if d == 2 { '2' } else if d == 3 { '3' }
    else if d == 4 { '4' } else if d == 5 { '5' } else if d == 6 { '6' } else if d == 7 { '7' }
    else if d == 8 { '8' } else if d == 9 { '9' } else if d == 10 { 'a' } else if d == 11 { 'b' }
    else if d == 12 { 'c' } else if d == 13 { 'd' } else if d == 14 { 'e' } else { 'f' }
}

/// How one character is written inside a JSON string literal.
pub open spec fn esc_char(c: char) -> Seq<char> {
    if c == '"' {
        seq!['\\', '"']
    } else if c == '\\' {
        seq!['\\', '\\']
    } else if c == '\u{08}' {
        seq!['\\', 'b']
    } else if c == '\u{0C}' {
        seq!['\\', 'f']
    } else if c == '\n' {
        seq!['\\', 'n']
    } else if c == '\r' {
        seq!['\\', 'r']
    } else if c == '\t' {
        seq!['\\', 't']
    } else if (c as u32) < 0x20 {
        seq!['\\', 'u', '0', '0', hex_digit((c as u32) as int / 16), hex_digit((c as u32) as int % 16)]
    } else {
        seq![c]
    }
}

/// How a whole string is written inside a JSON string literal.
pub open spec fn esc_str(s: Seq<char>) -> Seq<char>
    decreases s.len(),
{
    if s.len() == 0 {
        Seq::empty()
    } else {
        esc_char(s[0]) + esc_str(s.drop_first())
    }
}

/// The decimal digits of a nonnegative number.
pub open spec fn dec_digits(n: int) -> Seq<char>
    decreases n,
{
    if n < 10 {
        seq![hex_digit(if n < 0 { 0 } else { n })]
    } else {
        dec_digits(n / 10) + seq![hex_digit(n % 10)]
    }
}

/// The decimal text of an integer.
pub open spec fn dec_str(n: int) -> Seq<char> {
    if n < 0 {
        seq!['-'] + dec_digits(-n)
    } else {
        dec_digits(n)
    }
}

/// The JSON text of a value: compact, no added whitespace, object member
/// order kept.
pub open spec fn json_text(j: JVal) -> Seq<char>
    decreases j, 2int,
{
    match j {
        JVal::Null => "null"@,
        JVal::Bool(b) => if b { "true"@ } else { "false"@ },
        JVal::Int(i) => dec_str(i as int),
        JVal::Num(s) => s,
        JVal::Str(s) => seq!['"'] + esc_str(s) + seq!['"'],
        JVal::Arr(a) => {
            proof {
                assert(decreases_to!(j => a));
            }
            seq!['['] + json_text_elems(a) + seq![']']
        },
        JVal::Obj(o) => {
            proof {
                assert(decreases_to!(j => o));
            }
            seq!['{'] + json_text_members(o) + seq!['}']
        },
    }
}

/// The comma-separated element texts of an array.
pub open spec fn json_text_elems(a: Seq<JVal>) -> Seq<char>
    decreases a, 1int,
{
    if a.len() == 0 {
        Seq::empty()
    } else {
        proof {
            assert(decreases_to!(a => a[0]));
            assert(decreases_to!(a => a.drop_first()));
        }
        if a.len() == 1 {
            json_text(a[0])
        } else {
            json_text(a[0]) + seq![','] + json_text_elems(a.drop_first())
        }
    }
}

/// The comma-separated member texts of an object.
pub open spec fn json_text_members(o: Seq<(Seq<char>, JVal)>) -> Seq<char>
    decreases o, 1int,
{
    if o.len() == 0 {
        Seq::empty()
    } else {
        proof {
            assert(decreases_to!(o => o[0]));
            assert(decreases_to!(o[0] => o[0].1));
            assert(decreases_to!(o => o.drop_first()));
        }
        let head = seq!['"'] + esc_str(o[0].0) + seq!['"', ':'] + json_text(o[0].1);
        if o.len() == 1 {
            head
        } else {
            head + seq![','] + json_text_members(o.drop_first())
        }
    }
}

/// A value whose JSON text parses back to the value itself: it holds no
/// raw number literal, and its objects have no repeated keys.
pub open spec fn wf_json(j: JVal) -> bool
    decreases j, 2int,
{
    match j {
        JVal::Null => true,
        JVal::Bool(_) => true,
        JVal::Int(_) => true,
        JVal::Num(_) => false,
        JVal::Str(_) => true,
        JVal::Arr(a) => {
            proof {
                assert(decreases_to!(j => a));
            }
            wf_json_elems(a)
        },
        JVal::Obj(o) => {
            proof {
                assert(decreases_to!(j => o));
            }
            wf_json_members(o) && (forall|x: int, y: int|
                0 <= x < y < o.len() ==> o[x].0 != o[y].0)
        },
    }
}

pub open spec fn wf_json_elems(a: Seq<JVal>) -> bool
    decreases a, 1int,
{
    if a.len() == 0 {
        true
    } else {
        proof {
            assert(decreases_to!(a => a[0]));
            assert(decreases_to!(a => a.drop_first()));
        }
        wf_json(a[0]) && wf_json_elems(a.drop_first())
    }
}

pub open spec fn wf_json_members(o: Seq<(Seq<char>, JVal)>) -> bool
    decreases o, 1int,
{
    if o.len() == 0 {
        true
    } else {
        proof {
            assert(decreases_to!(o => o[0]));
            assert(decreases_to!(o[0] => o[0].1));
            assert(decreases_to!(o => o.drop_first()));
        }
        wf_json(o[0].1) && wf_json_members(o.drop_first())
    }
}

/// Append the decimal digits of `m` to `out`.
fn push_decimal(out: &mut String, m: u64)
    ensures
        final(out)@ == old(out)@ + dec_digits(m as int),
    decreases m,
{
    if m < 10 {
        let d = (m as u8) + 48;
        out.push(d as char);
        proof {
            assert(dec_digits(m as int) =~= seq![hex_digit(m as int)]);
            assert(final(out)@ =~= old(out)@ + dec_digits(m as int));
        }
    } else {
        push_decimal(out, m / 10);
        let d = ((m % 10) as u8) + 48;
        out.push(d as char);
        proof {
            assert(final(out)@ =~= old(out)@ + dec_digits(m as int));
        }
    }
}

/// Append one escaped character of a JSON string literal to `out`.
fn push_escaped_char(out: &mut String, c: char)
    ensures
        final(out)@ == old(out)@ + esc_char(c),
{
    let u = c as u32;
    if c == '"' {
        out.push('\\');
        out.push('"');
    } else if c == '\\' {
        out.push('\\');
        out.push('\\');
    } else if u == 0x08 {
        out.push('\\');
        out.push('b');
    } else if u == 0x0C {
        out.push('\\');
        out.push('f');
    } else if c == '\n' {
        out.push('\\');
        out.push('n');
    } else if c == '\r' {
        out.push('\\');
        out.push('r');
    } else if c == '\t' {
        out.push('\\');
        out.push('t');
    } else if u < 0x20 {
        out.push('\\');
        out.push('u');
        out.push('0');
        out.push('0');
        let hi = (u / 16) as u8;
        let lo = (u % 16) as u8;
        out.push(if hi < 10 { (hi + 48) as char } else { (hi - 10 + 97) as char });
        out.push(if lo < 10 { (lo + 48) as char } else { (lo - 10 + 97) as char });
    } else {
        out.push(c);
    }
    proof {
        assert(final(out)@ =~= old(out)@ + esc_char(c));
    }
}

/// Append the escaped form of `s` (without quotes) to `out`.
fn push_escaped(out: &mut String, s: &str)
    ensures
        final(out)@ == old(out)@ + esc_str(s@),
{
    let chars = str_to_chars(s);
    let n = chars.len();
    let mut i: usize = 0;
    proof {
        assert(esc_str(s@.take(0)) =~= Seq::<char>::empty());
        assert(out@ =~= out@ + esc_str(s@.take(0)));
    }
    while i < n
        invariant
            0 <= i <= n,
            n == s@.len(),
            chars@ == s@,
            out@ == old(out)@ + esc_str(s@.take(i as int)),
        decreases n - i,
    {
        push_escaped_char(out, chars[i]);
        proof {
            lemma_esc_str_snoc(s@.take(i as int), s@[i as int]);
            assert(s@.take(i as int).push(s@[i as int]) =~= s@.take(i as int + 1));
        }
        i = i + 1;
    }
    proof {
        assert(s@.take(n as int) =~= s@);
    }
}

proof fn lemma_esc_str_snoc(s: Seq<char>, c: char)
    ensures
        esc_str(s.push(c)) == esc_str(s) + esc_char(c),
    decreases s.len(),
{
    let p = s.push(c);
    assert(p.len() == s.len() + 1);
    if s.len() == 0 {
        assert(p[0] == c);
        assert(p.drop_first() =~= Seq::<char>::empty());
        assert(esc_str(p.drop_first()) =~= Seq::<char>::empty());
        assert(esc_str(p) == esc_char(p[0]) + esc_str(p.drop_first()));
        assert(esc_char(c) + Seq::<char>::empty() =~= esc_char(c));
        assert(esc_str(s) =~= Seq::<char>::empty());
        assert(esc_str(s) + esc_char(c) =~= esc_char(c));
    } else {
        lemma_esc_str_snoc(s.drop_first(), c);
        assert(p[0] == s[0]);
        assert(p.drop_first() =~= s.drop_first().push(c));
        assert(esc_str(p) == esc_char(p[0]) + esc_str(p.drop_first()));
        assert(esc_str(s) == esc_char(s[0]) + esc_str(s.drop_first()));
        assert(esc_char(s[0]) + (esc_str(s.drop_first()) + esc_char(c)) =~= (esc_char(s[0])
            + esc_str(s.drop_first())) + esc_char(c));
    }
}

proof fn lemma_decreases_arr(v: JsonValue)
    requires
        v is Arr,
    ensures
        decreases_to!(v => v->Arr_0),
{
    match v {
        JsonValue::Arr(a) => {
            assert(decreases_to!(v => a));
        },
        _ => {},
    }
}

proof fn lemma_decreases_obj(v: JsonValue)
    requires
        v is Obj,
    ensures
        decreases_to!(v => v->Obj_0),
{
    match v {
        JsonValue::Obj(o) => {
            assert(decreases_to!(v => o));
        },
        _ => {},
    }
}

/// Append the JSON text of `v` to `out`.
#[verifier::loop_isolation(false)]
#[verifier::rlimit(60)]
fn write_json_into(v: &JsonValue, out: &mut String)
    ensures
        final(out)@ == old(out)@ + json_text(v.deep_view()),
    decreases v,
{
    match *v {
        JsonValue::Null => {
            out.append("null");
        },
        JsonValue::Bool(ref b) => {
            if *b {
                out.append("true");
            } else {
                out.append("false");
            }
        },
        JsonValue::Int(ref i) => {
            let m: u64 = if *i >= 0 {
                *i as u64
            } else {
                out.push('-');
                (-(*i + 1)) as u64 + 1
            };
            push_decimal(out, m);
            proof {
                assert(final(out)@ =~= old(out)@ + json_text(v.deep_view()));
            }
        },
        JsonValue::Num(ref s) => {
            out.append(s.as_str());
        },
        JsonValue::Str(ref s) => {
            out.push('"');
            push_escaped(out, s.as_str());
            out.push('"');
            proof {
                assert(final(out)@ =~= old(out)@ + json_text(v.deep_view()));
            }
        },
        JsonValue::Arr(ref a) => {
            out.push('[');
            let n = a.len();
            let ghost av = elems_view(a@);
            proof {
                lemma_elems_view(a@);
            }
            let mut i: usize = 0;
            while i < n
                invariant
                    0 <= i <= n,
                    n == a@.len(),
                    av == elems_view(a@),
                    av.len() == n,
                    forall|k: int| 0 <= k < n ==> av[k] == jval_of(a@[k]),
                    i == 0 ==> out@ == old(out)@ + seq!['['],
                    i > 0 ==> out@ == old(out)@ + seq!['['] + json_text_elems(av.take(i as int)),
                decreases n - i,
            {
                if i > 0 {
                    out.push(',');
                }
                proof {
                    lemma_decreases_arr(*v);
                    assert(v->Arr_0 == *a);
                    assert(decreases_to!(*v => *a));
                    assert(decreases_to!(*a => a@));
                    assert(decreases_to!(a@ => a@[i as int]));
                }
                write_json_into(&a[i], out);
                proof {
                    lemma_json_text_elems_snoc(av.take(i as int), av[i as int]);
                    assert(av.take(i as int).push(av[i as int]) =~= av.take(i as int + 1));
                    assert(out@ =~= old(out)@ + seq!['['] + json_text_elems(av.take(i as int + 1)));
                }
                i = i + 1;
            }
            out.push(']');
            proof {
                assert(av.take(n as int) =~= av);
                if n == 0 {
                    assert(json_text_elems(av) =~= Seq::<char>::empty());
                }
                assert(final(out)@ =~= old(out)@ + json_text(v.deep_view()));
            }
        },
        JsonValue::Obj(ref o) => {
            out.push('{');
            let n = o.len();
            let ghost ov = members_view(o@);
            proof {
                lemma_members_view(o@);
            }
            let mut i: usize = 0;
            while i < n
                invariant
                    0 <= i <= n,
                    n == o@.len(),
                    ov == members_view(o@),
                    ov.len() == n,
                    forall|k: int|
                        0 <= k < n ==> ov[k] == (o@[k].0@, jval_of(o@[k].1)),
                    i == 0 ==> out@ == old(out)@ + seq!['{'],
                    i > 0 ==> out@ == old(out)@ + seq!['{'] + json_text_members(ov.take(i as int)),
                decreases n - i,
            {
                if i > 0 {
                    out.push(',');
                }
                out.push('"');
                push_escaped(out, o[i].0.as_str());
                out.push('"');
                out.push(':');
                proof {
                    lemma_decreases_obj(*v);
                    assert(v->Obj_0 == *o);
                    assert(decreases_to!(*v => *o));
                    assert(decreases_to!(*o => o@));
                    assert(decreases_to!(o@ => o@[i as int]));
                    assert(decreases_to!(o@[i as int] => o@[i as int].1));
                }
                write_json_into(&o[i].1, out);
                proof {
                    lemma_json_text_members_snoc(ov.take(i as int), ov[i as int]);
                    assert(ov.take(i as int).push(ov[i as int]) =~= ov.take(i as int + 1));
                    assert(out@ =~= old(out)@ + seq!['{'] + json_text_members(
                        ov.take(i as int + 1),
                    ));
                }
                i = i + 1;
            }
            out.push('}');
            proof {
                assert(ov.take(n as int) =~= ov);
                if n == 0 {
                    assert(json_text_members(ov) =~= Seq::<char>::empty());
                }
                assert(final(out)@ =~= old(out)@ + json_text(v.deep_view()));
            }
        },
    }
}

proof fn lemma_json_text_elems_snoc(a: Seq<JVal>, x: JVal)
    ensures
        json_text_elems(a.push(x)) == if a.len() == 0 {
            json_text(x)
        } else {
            json_text_elems(a) + seq![','] + json_text(x)
        },
    decreases a.len(),
{
    let p = a.push(x);
    assert(p.len() == a.len() + 1);
    if a.len() == 0 {
        assert(p[0] == x);
        assert(p.len() == 1);
        assert(json_text_elems(p) == json_text(p[0]));
    } else {
        lemma_json_text_elems_snoc(a.drop_first(), x);
        assert(p[0] == a[0]);
        assert(p.drop_first() =~= a.drop_first().push(x));
        assert(p.len() >= 2);
        assert(json_text_elems(p) == json_text(p[0]) + seq![','] + json_text_elems(p.drop_first()));
        if a.len() == 1 {
            assert(a.drop_first().len() == 0);
            assert(json_text_elems(a) == json_text(a[0]));
            assert(json_text(a[0]) + seq![','] + json_text(x) =~= json_text(p[0]) + seq![',']
                + json_text_elems(p.drop_first()));
        } else {
            assert(json_text_elems(a) == json_text(a[0]) + seq![','] + json_text_elems(
                a.drop_first(),
            ));
            assert((json_text(a[0]) + seq![','] + json_text_elems(a.drop_first())) + seq![',']
                + json_text(x) =~= json_text(p[0]) + seq![','] + json_text_elems(p.drop_first()));
        }
    }
}

proof fn lemma_json_text_members_snoc(o: Seq<(Seq<char>, JVal)>, x: (Seq<char>, JVal))
    ensures
        json_text_members(o.push(x)) == if o.len() == 0 {
            seq!['"'] + esc_str(x.0) + seq!['"', ':'] + json_text(x.1)
        } else {
            json_text_members(o) + seq![','] + (seq!['"'] + esc_str(x.0) + seq!['"', ':']
                + json_text(x.1))
        },
    decreases o.len(),
{
    let p = o.push(x);
    assert(p.len() == o.len() + 1);
    let xtext = seq!['"'] + esc_str(x.0) + seq!['"', ':'] + json_text(x.1);
    if o.len() == 0 {
        assert(p[0] == x);
        assert(p.len() == 1);
        assert(json_text_members(p) == seq!['"'] + esc_str(p[0].0) + seq!['"', ':'] + json_text(
            p[0].1,
        ));
    } else {
        lemma_json_text_members_snoc(o.drop_first(), x);
        assert(p[0] == o[0]);
        assert(p.drop_first() =~= o.drop_first().push(x));
        assert(p.len() >= 2);
        let head = seq!['"'] + esc_str(o[0].0) + seq!['"', ':'] + json_text(o[0].1);
        assert(json_text_members(p) == head + seq![','] + json_text_members(p.drop_first()));
        if o.len() == 1 {
            assert(o.drop_first().len() == 0);
            assert(json_text_members(o) == head);
            assert(head + seq![','] + xtext =~= head + seq![','] + json_text_members(
                p.drop_first(),
            ));
        } else {
            assert(json_text_members(o) == head + seq![','] + json_text_members(o.drop_first()));
            assert((head + seq![','] + json_text_members(o.drop_first())) + seq![','] + xtext
                =~= head + seq![','] + json_text_members(p.drop_first()));
        }
    }
}

proof fn lemma_pretty_elems_snoc(a: Seq<JVal>, x: JVal, ind: Seq<char>)
    ensures
        json_text_pretty_elems(a.push(x), ind) == if a.len() == 0 {
            seq!['\n'] + ind + json_text_pretty(x, ind)
        } else {
            json_text_pretty_elems(a, ind) + seq![','] + (seq!['\n'] + ind + json_text_pretty(
                x,
                ind,
            ))
        },
    decreases a.len(),
{
    let p = a.push(x);
    assert(p.len() == a.len() + 1);
    if a.len() == 0 {
        assert(p[0] == x);
        assert(p.len() == 1);
        assert(json_text_pretty_elems(p, ind) == seq!['\n'] + ind + json_text_pretty(p[0], ind));
    } else {
        lemma_pretty_elems_snoc(a.drop_first(), x, ind);
        assert(p[0] == a[0]);
        assert(p.drop_first() =~= a.drop_first().push(x));
        assert(p.len() >= 2);
        let head = seq!['\n'] + ind + json_text_pretty(p[0], ind);
        assert(json_text_pretty_elems(p, ind) == head + seq![','] + json_text_pretty_elems(
            p.drop_first(),
            ind,
        ));
        let tail_entry = seq!['\n'] + ind + json_text_pretty(x, ind);
        if a.len() == 1 {
            assert(a.drop_first().len() == 0);
            assert(json_text_pretty_elems(a, ind) == head);
            assert(head + seq![','] + tail_entry =~= head + seq![','] + json_text_pretty_elems(
                p.drop_first(),
                ind,
            ));
        } else {
            assert(json_text_pretty_elems(a, ind) == head + seq![','] + json_text_pretty_elems(
                a.drop_first(),
                ind,
            ));
            assert((head + seq![','] + json_text_pretty_elems(a.drop_first(), ind)) + seq![',']
                + tail_entry =~= head + seq![','] + json_text_pretty_elems(p.drop_first(), ind));
        }
    }
}

proof fn lemma_pretty_members_snoc(o: Seq<(Seq<char>, JVal)>, x: (Seq<char>, JVal), ind: Seq<char>)
    ensures
        json_text_pretty_members(o.push(x), ind) == ({
            let entry = seq!['\n'] + ind + seq!['"'] + esc_str(x.0) + seq!['"', ':', ' ']
                + json_text_pretty(x.1, ind);
            if o.len() == 0 {
                entry
            } else {
                json_text_pretty_members(o, ind) + seq![','] + entry
            }
        }),
    decreases o.len(),
{
    let p = o.push(x);
    assert(p.len() == o.len() + 1);
    let xentry = seq!['\n'] + ind + seq!['"'] + esc_str(x.0) + seq!['"', ':', ' ']
        + json_text_pretty(x.1, ind);
    if o.len() == 0 {
        assert(p[0] == x);
        assert(p.len() == 1);
        assert(json_text_pretty_members(p, ind) == seq!['\n'] + ind + seq!['"'] + esc_str(p[0].0)
            + seq!['"', ':', ' '] + json_text_pretty(p[0].1, ind));
    } else {
        lemma_pretty_members_snoc(o.drop_first(), x, ind);
        assert(p[0] == o[0]);
        assert(p.drop_first() =~= o.drop_first().push(x));
        assert(p.len() >= 2);
        let head = seq!['\n'] + ind + seq!['"'] + esc_str(o[0].0) + seq!['"', ':', ' ']
            + json_text_pretty(o[0].1, ind);
        assert(json_text_pretty_members(p, ind) == head + seq![','] + json_text_pretty_members(
            p.drop_first(),
            ind,
        ));
        if o.len() == 1 {
            assert(o.drop_first().len() == 0);
            assert(json_text_pretty_members(o, ind) == head);
            assert(head + seq![','] + xentry =~= head + seq![','] + json_text_pretty_members(
                p.drop_first(),
                ind,
            ));
        } else {
            assert(json_text_pretty_members(o, ind) == head + seq![','] + json_text_pretty_members(
                o.drop_first(),
                ind,
            ));
            assert((head + seq![','] + json_text_pretty_members(o.drop_first(), ind)) + seq![',']
                + xentry =~= head + seq![','] + json_text_pretty_members(p.drop_first(), ind));
        }
    }
}

/// Append the pretty JSON text of `v` under the indentation `ind`.
#[verifier::loop_isolation(false)]
#[verifier::rlimit(100)]
#[verifier::spinoff_prover]
fn write_json_pretty_into(v: &JsonValue, out: &mut String, ind: &Vec<char>)
    ensures
        final(out)@ == old(out)@ + json_text_pretty(v.deep_view(), ind@),
    decreases v,
{
    proof {
        reveal_strlit("  ");
    }
    match *v {
        JsonValue::Null => {
            out.append("null");
        },
        JsonValue::Bool(ref b) => {
            if *b {
                out.append("true");
            } else {
                out.append("false");
            }
        },
        JsonValue::Int(ref i) => {
            let m: u64 = if *i >= 0 {
                *i as u64
            } else {
                out.push('-');
                (-(*i + 1)) as u64 + 1
            };
            push_decimal(out, m);
            proof {
                assert(final(out)@ =~= old(out)@ + json_text_pretty(v.deep_view(), ind@));
            }
        },
        JsonValue::Num(ref s) => {
            out.append(s.as_str());
        },
        JsonValue::Str(ref s) => {
            out.push('"');
            push_escaped(out, s.as_str());
            out.push('"');
            proof {
                assert(final(out)@ =~= old(out)@ + json_text_pretty(v.deep_view(), ind@));
            }
        },
        JsonValue::Arr(ref a) => {
            let n = a.len();
            if n == 0 {
                out.append("[]");
                proof {
                    assert(final(out)@ =~= old(out)@ + json_text_pretty(v.deep_view(), ind@));
                }
                return ;
            }
            let mut inner = ind.clone();
            inner.push(' ');
            inner.push(' ');
            proof {
                assert(inner@ =~= ind@ + "  "@);
            }
            out.push('[');
            let ghost av = elems_view(a@);
            proof {
                lemma_elems_view(a@);
            }
            let mut i: usize = 0;
            while i < n
                invariant
                    0 <= i <= n,
                    n == a@.len(),
                    n > 0,
                    v is Arr,
                    *a == v->Arr_0,
                    inner@ == ind@ + "  "@,
                    av == elems_view(a@),
                    av.len() == n,
                    forall|k: int| 0 <= k < n ==> av[k] == jval_of(a@[k]),
                    i == 0 ==> out@ == old(out)@ + seq!['['],
                    i > 0 ==> out@ == old(out)@ + seq!['['] + json_text_pretty_elems(
                        av.take(i as int),
                        inner@,
                    ),
                decreases n - i,
            {
                if i > 0 {
                    out.push(',');
                }
                out.push('\n');
                let ind_str = chars_to_string(&inner);
                out.append(ind_str.as_str());
                proof {
                    lemma_decreases_arr3(*v);
                    assert(v->Arr_0 == *a);
                    assert(decreases_to!(*v => *a));
                    assert(decreases_to!(*a => a@));
                    assert(decreases_to!(a@ => a@[i as int]));
                }
                write_json_pretty_into(&a[i], out, &inner);
                proof {
                    lemma_pretty_elems_snoc(av.take(i as int), av[i as int], inner@);
                    assert(av.take(i as int).push(av[i as int]) =~= av.take(i as int + 1));
                    assert(out@ =~= old(out)@ + seq!['['] + json_text_pretty_elems(
                        av.take(i as int + 1),
                        inner@,
                    ));
                }
                i = i + 1;
            }
            out.push('\n');
            let ind_str = chars_to_string(ind);
            out.append(ind_str.as_str());
            out.push(']');
            proof {
                assert(av.take(n as int) =~= av);
                assert(final(out)@ =~= old(out)@ + json_text_pretty(v.deep_view(), ind@));
            }
        },
        JsonValue::Obj(ref o) => {
            let n = o.len();
            if n == 0 {
                out.append("{}");
                proof {
                    assert(final(out)@ =~= old(out)@ + json_text_pretty(v.deep_view(), ind@));
                }
                return ;
            }
            let mut inner = ind.clone();
            inner.push(' ');
            inner.push(' ');
            proof {
                assert(inner@ =~= ind@ + "  "@);
            }
            out.push('{');
            let ghost ov = members_view(o@);
            proof {
                lemma_members_view(o@);
            }
            let mut i: usize = 0;
            while i < n
                invariant
                    0 <= i <= n,
                    n == o@.len(),
                    n > 0,
                    v is Obj,
                    *o == v->Obj_0,
                    inner@ == ind@ + "  "@,
                    ov == members_view(o@),
                    ov.len() == n,
                    forall|k: int| 0 <= k < n ==> ov[k] == (o@[k].0@, jval_of(o@[k].1)),
                    i == 0 ==> out@ == old(out)@ + seq!['{'],
                    i > 0 ==> out@ == old(out)@ + seq!['{'] + json_text_pretty_members(
                        ov.take(i as int),
                        inner@,
                    ),
                decreases n - i,
            {
                if i > 0 {
                    out.push(',');
                }
                out.push('\n');
                let ind_str = chars_to_string(&inner);
                out.append(ind_str.as_str());
                out.push('"');
                push_escaped(out, o[i].0.as_str());
                out.push('"');
                out.push(':');
                out.push(' ');
                proof {
                    lemma_decreases_obj3(*v);
                    assert(v->Obj_0 == *o);
                    assert(decreases_to!(*v => *o));
                    assert(decreases_to!(*o => o@));
                    assert(decreases_to!(o@ => o@[i as int]));
                    assert(decreases_to!(o@[i as int] => o@[i as int].1));
                }
                write_json_pretty_into(&o[i].1, out, &inner);
                proof {
                    lemma_pretty_members_snoc(ov.take(i as int), ov[i as int], inner@);
                    assert(ov.take(i as int).push(ov[i as int]) =~= ov.take(i as int + 1));
                    assert(out@ =~= old(out)@ + seq!['{'] + json_text_pretty_members(
                        ov.take(i as int + 1),
                        inner@,
                    ));
                }
                i = i + 1;
            }
            out.push('\n');
            let ind_str = chars_to_string(ind);
            out.append(ind_str.as_str());
            out.push('}');
            proof {
                assert(ov.take(n as int) =~= ov);
                assert(final(out)@ =~= old(out)@ + json_text_pretty(v.deep_view(), ind@));
            }
        },
    }
}

proof fn lemma_decreases_arr3(v: JsonValue)
    requires
        v is Arr,
    ensures
        decreases_to!(v => v->Arr_0),
{
    match v {
        JsonValue::Arr(a) => {
            assert(decreases_to!(v => a));
        },
        _ => {},
    }
}

proof fn lemma_decreases_obj3(v: JsonValue)
    requires
        v is Obj,
    ensures
        decreases_to!(v => v->Obj_0),
{
    match v {
        JsonValue::Obj(o) => {
            assert(decreases_to!(v => o));
        },
        _ => {},
    }
}

/// The pretty JSON text of `v`: one array element or object member per
/// line, two spaces of indentation per level.
pub fn json_write_pretty(v: &JsonValue) -> (r: String)
    ensures
        r@ == json_text_pretty(v.deep_view(), Seq::empty()),
{
    let mut out = String::new();
    let ind: Vec<char> = Vec::new();
    proof {
        assert(ind@ =~= Seq::<char>::empty());
    }
    write_json_pretty_into(v, &mut out, &ind);
    proof {
        assert(Seq::<char>::empty() + json_text_pretty(v.deep_view(), Seq::empty())
            =~= json_text_pretty(v.deep_view(), Seq::empty()));
    }
    out
}

/// The JSON text of `v`: compact, object member order kept.
pub fn json_write(v: &JsonValue) -> (r: String)
    ensures
        r@ == json_text(v.deep_view()),
{
    let mut out = String::new();
    write_json_into(v, &mut out);
    proof {
        assert(Seq::<char>::empty() + json_text(v.deep_view()) =~= json_text(v.deep_view()));
    }
    out
}



/// How deep a document nests: a scalar is at depth zero, an array or
/// object is one deeper than its deepest member.
pub open spec fn json_depth(j: JVal) -> nat
    decreases j, 2int,
{
    match j {
        JVal::Arr(a) => {
            proof {
                assert(decreases_to!(j => a));
            }
            1 + json_depth_elems(a)
        },
        JVal::Obj(o) => {
            proof {
                assert(decreases_to!(j => o));
            }
            1 + json_depth_members(o)
        },
        _ => 0,
    }
}

pub open spec fn json_depth_elems(a: Seq<JVal>) -> nat
    decreases a, 1int,
{
    if a.len() == 0 {
        0
    } else {
        proof {
            assert(decreases_to!(a => a[0]));
            assert(decreases_to!(a => a.drop_first()));
        }
        let d = json_depth(a[0]);
        let rest = json_depth_elems(a.drop_first());
        if d >= rest {
            d
        } else {
            rest
        }
    }
}

pub open spec fn json_depth_members(o: Seq<(Seq<char>, JVal)>) -> nat
    decreases o, 1int,
{
    if o.len() == 0 {
        0
    } else {
        proof {
            assert(decreases_to!(o => o[0]));
            assert(decreases_to!(o[0] => o[0].1));
            assert(decreases_to!(o => o.drop_first()));
        }
        let d = json_depth(o[0].1);
        let rest = json_depth_members(o.drop_first());
        if d >= rest {
            d
        } else {
            rest
        }
    }
}

/// The pretty JSON text of a value under the given indentation: each
/// array element or object member on its own line, two more spaces per
/// level, a space after each key's colon; empty containers stay on one
/// line.
pub open spec fn json_text_pretty(j: JVal, ind: Seq<char>) -> Seq<char>
    decreases j, 2int,
{
    match j {
        JVal::Null => "null"@,
        JVal::Bool(b) => if b {
            "true"@
        } else {
            "false"@
        },
        JVal::Int(i) => dec_str(i as int),
        JVal::Num(s) => s,
        JVal::Str(s) => seq!['"'] + esc_str(s) + seq!['"'],
        JVal::Arr(a) => {
            proof {
                assert(decreases_to!(j => a));
            }
            if a.len() == 0 {
                "[]"@
            } else {
                seq!['['] + json_text_pretty_elems(a, ind + "  "@) + seq!['\n'] + ind + seq![']']
            }
        },
        JVal::Obj(o) => {
            proof {
                assert(decreases_to!(j => o));
            }
            if o.len() == 0 {
                "{}"@
            } else {
                seq!['{'] + json_text_pretty_members(o, ind + "  "@) + seq!['\n'] + ind
                    + seq!['}']
            }
        },
    }
}

/// The comma-separated pretty element texts, each opening its own line.
pub open spec fn json_text_pretty_elems(a: Seq<JVal>, ind: Seq<char>) -> Seq<char>
    decreases a, 1int,
{
    if a.len() == 0 {
        Seq::empty()
    } else {
        proof {
            assert(decreases_to!(a => a[0]));
            assert(decreases_to!(a => a.drop_first()));
        }
        let entry = seq!['\n'] + ind + json_text_pretty(a[0], ind);
        if a.len() == 1 {
            entry
        } else {
            entry + seq![','] + json_text_pretty_elems(a.drop_first(), ind)
        }
    }
}

/// The comma-separated pretty member texts, each opening its own line.
pub open spec fn json_text_pretty_members(o: Seq<(Seq<char>, JVal)>, ind: Seq<char>) -> Seq<char>
    decreases o, 1int,
{
    if o.len() == 0 {
        Seq::empty()
    } else {
        proof {
            assert(decreases_to!(o => o[0]));
            assert(decreases_to!(o[0] => o[0].1));
            assert(decreases_to!(o => o.drop_first()));
        }
        let entry = seq!['\n'] + ind + seq!['"'] + esc_str(o[0].0) + seq!['"', ':', ' ']
            + json_text_pretty(o[0].1, ind);
        if o.len() == 1 {
            entry
        } else {
            entry + seq![','] + json_text_pretty_members(o.drop_first(), ind)
        }
    }
}

/// A document whose raw number literals hold no newline. Every other
/// printed piece is escaped or fixed text, so such a document's compact
/// text stays on one line.
pub open spec fn nums_line_free(j: JVal) -> bool
    decreases j, 2int,
{
    match j {
        JVal::Num(s) => forall|i: int| 0 <= i < s.len() ==> #[trigger] s[i] != '\n',
        JVal::Arr(a) => {
            proof {
                assert(decreases_to!(j => a));
            }
            nums_line_free_elems(a)
        },
        JVal::Obj(o) => {
            proof {
                assert(decreases_to!(j => o));
            }
            nums_line_free_members(o)
        },
        _ => true,
    }
}

pub open spec fn nums_line_free_elems(a: Seq<JVal>) -> bool
    decreases a, 1int,
{
    if a.len() == 0 {
        true
    } else {
        proof {
            assert(decreases_to!(a => a[0]));
            assert(decreases_to!(a => a.drop_first()));
        }
        nums_line_free(a[0]) && nums_line_free_elems(a.drop_first())
    }
}

pub open spec fn nums_line_free_members(o: Seq<(Seq<char>, JVal)>) -> bool
    decreases o, 1int,
{
    if o.len() == 0 {
        true
    } else {
        proof {
            assert(decreases_to!(o => o[0]));
            assert(decreases_to!(o[0] => o[0].1));
            assert(decreases_to!(o => o.drop_first()));
        }
        nums_line_free(o[0].1) && nums_line_free_members(o.drop_first())
    }
}

/// A text holds no newline.
pub open spec fn line_free(s: Seq<char>) -> bool {
    forall|i: int| 0 <= i < s.len() ==> #[trigger] s[i] != '\n'
}

proof fn lemma_esc_char_line_free(c: char)
    ensures
        line_free(esc_char(c)),
{
}

proof fn lemma_esc_str_line_free(s: Seq<char>)
    ensures
        line_free(esc_str(s)),
    decreases s.len(),
{
    if s.len() > 0 {
        lemma_esc_char_line_free(s[0]);
        lemma_esc_str_line_free(s.drop_first());
        assert forall|i: int| 0 <= i < esc_str(s).len() implies #[trigger] esc_str(s)[i] != '\n' by {
            if i < esc_char(s[0]).len() {
                assert(esc_str(s)[i] == esc_char(s[0])[i]);
            } else {
                assert(esc_str(s)[i] == esc_str(s.drop_first())[i - esc_char(s[0]).len()]);
            }
        }
    }
}

proof fn lemma_dec_digits_line_free(n: int)
    ensures
        line_free(dec_digits(n)),
    decreases n,
{
    if n >= 10 {
        lemma_dec_digits_line_free(n / 10);
        assert forall|i: int|
            0 <= i < dec_digits(n).len() implies #[trigger] dec_digits(n)[i] != '\n' by {
            if i < dec_digits(n / 10).len() {
                assert(dec_digits(n)[i] == dec_digits(n / 10)[i]);
            } else {
                assert(dec_digits(n)[i] == hex_digit(n % 10));
            }
        }
    }
}

proof fn lemma_dec_str_line_free(n: int)
    ensures
        line_free(dec_str(n)),
{
    if n < 0 {
        lemma_dec_digits_line_free(-n);
        assert forall|i: int| 0 <= i < dec_str(n).len() implies #[trigger] dec_str(n)[i] != '\n' by {
            if i > 0 {
                assert(dec_str(n)[i] == dec_digits(-n)[i - 1]);
            }
        }
    } else {
        lemma_dec_digits_line_free(n);
    }
}

/// The compact text of a document without newline-holding number
/// literals is one line: it holds no newline.
pub proof fn lemma_json_text_line_free(j: JVal)
    requires
        nums_line_free(j),
    ensures
        line_free(json_text(j)),
    decreases j, 2int,
{
    reveal_strlit("null");
    reveal_strlit("true");
    reveal_strlit("false");
    match j {
        JVal::Null => {
            assert("null"@.len() == 4);
        },
        JVal::Bool(b) => {
            assert("true"@.len() == 4);
            assert("false"@.len() == 5);
        },
        JVal::Int(i) => {
            lemma_dec_str_line_free(i as int);
        },
        JVal::Num(s) => {
        },
        JVal::Str(s) => {
            lemma_esc_str_line_free(s);
            assert forall|i: int|
                0 <= i < json_text(j).len() implies #[trigger] json_text(j)[i] != '\n' by {
                if 1 <= i < 1 + esc_str(s).len() {
                    assert(json_text(j)[i] == esc_str(s)[i - 1]);
                }
            }
        },
        JVal::Arr(a) => {
            assert(decreases_to!(j => a));
            lemma_json_text_elems_line_free(a);
            assert forall|i: int|
                0 <= i < json_text(j).len() implies #[trigger] json_text(j)[i] != '\n' by {
                if 1 <= i < 1 + json_text_elems(a).len() {
                    assert(json_text(j)[i] == json_text_elems(a)[i - 1]);
                }
            }
        },
        JVal::Obj(o) => {
            assert(decreases_to!(j => o));
            lemma_json_text_members_line_free(o);
            assert forall|i: int|
                0 <= i < json_text(j).len() implies #[trigger] json_text(j)[i] != '\n' by {
                if 1 <= i < 1 + json_text_members(o).len() {
                    assert(json_text(j)[i] == json_text_members(o)[i - 1]);
                }
            }
        },
    }
}

proof fn lemma_json_text_elems_line_free(a: Seq<JVal>)
    requires
        nums_line_free_elems(a),
    ensures
        line_free(json_text_elems(a)),
    decreases a, 1int,
{
    if a.len() == 0 {
    } else {
        assert(decreases_to!(a => a[0]));
        assert(decreases_to!(a => a.drop_first()));
        lemma_json_text_line_free(a[0]);
        if a.len() == 1 {
        } else {
            lemma_json_text_elems_line_free(a.drop_first());
            assert forall|i: int|
                0 <= i < json_text_elems(a).len() implies #[trigger] json_text_elems(a)[i]
                != '\n' by {
                let h = json_text(a[0]);
                if i < h.len() {
                    assert(json_text_elems(a)[i] == h[i]);
                } else if i > h.len() {
                    assert(json_text_elems(a)[i] == json_text_elems(a.drop_first())[i - h.len()
                        - 1]);
                }
            }
        }
    }
}

proof fn lemma_json_text_members_line_free(o: Seq<(Seq<char>, JVal)>)
    requires
        nums_line_free_members(o),
    ensures
        line_free(json_text_members(o)),
    decreases o, 1int,
{
    if o.len() == 0 {
    } else {
        assert(decreases_to!(o => o[0]));
        assert(decreases_to!(o[0] => o[0].1));
        assert(decreases_to!(o => o.drop_first()));
        lemma_esc_str_line_free(o[0].0);
        lemma_json_text_line_free(o[0].1);
        let head = seq!['"'] + esc_str(o[0].0) + seq!['"', ':'] + json_text(o[0].1);
        assert(line_free(head)) by {
            assert forall|i: int| 0 <= i < head.len() implies #[trigger] head[i] != '\n' by {
                if 1 <= i < 1 + esc_str(o[0].0).len() {
                    assert(head[i] == esc_str(o[0].0)[i - 1]);
                } else if 3 + esc_str(o[0].0).len() <= i {
                    assert(head[i] == json_text(o[0].1)[i - 3 - esc_str(o[0].0).len()]);
                }
            }
        }
        if o.len() == 1 {
        } else {
            lemma_json_text_members_line_free(o.drop_first());
            assert forall|i: int|
                0 <= i < json_text_members(o).len() implies #[trigger] json_text_members(o)[i]
                != '\n' by {
                if i < head.len() {
                    assert(json_text_members(o)[i] == head[i]);
                } else if i > head.len() {
                    assert(json_text_members(o)[i] == json_text_members(o.drop_first())[i
                        - head.len() - 1]);
                }
            }
        }
    }
}

/// What `serde_json` parses a text into, under this library's model of a
/// JSON document: `None` when the text is not well-formed JSON.
pub uninterp spec fn json_parsed(s: Seq<char>) -> Option<JVal>;

/// Whitespace as JSON knows it: what a parser skips around a document.
pub open spec fn json_ws_seq(s: Seq<char>) -> bool {
    forall|i: int|
        0 <= i < s.len() ==> (#[trigger] s[i] == ' ' || s[i] == '\t' || s[i] == '\n' || s[i]
            == '\r')
}

/// Relies on `serde_json::from_str::<serde_json::Value>`: returns the
/// parsed document exactly on well-formed JSON text and an error
/// otherwise. The round-trip clauses hold because `json_text` and
/// `json_text_pretty` write standard JSON (object member order kept by
/// the `preserve_order` feature, no duplicate keys and no raw number
/// literals under `wf_json`), which that parser maps back to the same
/// document — provided the document stays under the parser's recursion
/// limit: it refuses containers nested more than 127 deep.
#[verifier::external_body]
pub fn parse_json(s: &str) -> (r: Option<JsonValue>)
    ensures
        r.deep_view() == json_parsed(s@),
        forall|j: JVal, pre: Seq<char>, post: Seq<char>|
            s@ == pre + json_text(j) + post && json_ws_seq(pre) && json_ws_seq(post) && wf_json(j)
                && json_depth(j) <= 127 ==> r.deep_view() == Some(j),
        forall|j: JVal, pre: Seq<char>, post: Seq<char>|
            s@ == pre + json_text_pretty(j, Seq::empty()) + post && json_ws_seq(pre) && json_ws_seq(
                post,
            ) && wf_json(j) && json_depth(j) <= 127 ==> r.deep_view() == Some(j),
{
    match serde_json::from_str::<serde_json::Value>(s) {
        Ok(v) => Some(json_of_value(&v)),
        Err(_) => None,
    }
}

#[verifier::external_type_specification]
#[verifier::external_body]
pub struct ExValue(serde_json::Value);

/// Converts `serde_json`'s tree into the library's value, variant by
/// variant; only `parse_json` calls it. An integer that fits `i64` stays
/// an integer; any other number keeps its literal text.
#[verifier::external_body]
fn json_of_value(v: &serde_json::Value) -> JsonValue {
    match v {
        serde_json::Value::Null => JsonValue::Null,
        serde_json::Value::Bool(b) => JsonValue::Bool(*b),
        serde_json::Value::Number(n) => match n.as_i64() {
            Some(i) => JsonValue::Int(i),
            None => JsonValue::Num(n.to_string()),
        },
        serde_json::Value::String(s) => JsonValue::Str(s.clone()),
        serde_json::Value::Array(a) => JsonValue::Arr(a.iter().map(json_of_value).collect()),
        serde_json::Value::Object(o) => JsonValue::Obj(
            o.iter().map(|(k, x)| (k.clone(), json_of_value(x))).collect(),
        ),
    }
}

} // verus!
