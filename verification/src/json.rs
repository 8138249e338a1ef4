//! A JSON tree with a verified serializer and parser.
//!
//! Numbers are kept as their literal text, so no value is ever rounded and
//! serializing reproduces the input exactly. The serializer emits canonical
//! text: no interior whitespace, and strings escaped with `\"`, `\\`, `\n`,
//! `\r`, `\t`, and `\u00XX` for the remaining control characters. The parser
//! is lenient: it accepts whitespace between tokens and the standard JSON
//! escapes, and it reports failure rather than panicking.

use vstd::prelude::*;

verus! {

use crate::text::is_space;

/// A JSON value.
#[derive(Debug)]
pub enum Json {
    Null,
    Bool(bool),
    /// The literal text of a number, e.g. `-1.5e3`.
    Num(String),
    /// The decoded characters of a string.
    Str(String),
    Arr(Vec<Json>),
    Obj(Vec<(String, Json)>),
}

/// The mathematical shape of a JSON value.
pub enum JsonModel {
    Null,
    Bool(bool),
    Num(Seq<char>),
    Str(Seq<char>),
    Arr(Seq<JsonModel>),
    Obj(Seq<(Seq<char>, JsonModel)>),
}

pub open spec fn json_view(j: Json) -> JsonModel
    decreases j,
{
    match j {
        Json::Null => JsonModel::Null,
        Json::Bool(b) => JsonModel::Bool(b),
        Json::Num(t) => JsonModel::Num(t@),
        Json::Str(s) => JsonModel::Str(s@),
        Json::Arr(items) => JsonModel::Arr(
            Seq::new(
                items@.len(),
                |i: int|
                    if 0 <= i < items@.len() {
                        json_view(items@[i])
                    } else {
                        JsonModel::Null
                    },
            ),
        ),
        Json::Obj(fields) => JsonModel::Obj(
            Seq::new(
                fields@.len(),
                |i: int|
                    if 0 <= i < fields@.len() {
                        (fields@[i].0@, json_view(fields@[i].1))
                    } else {
                        (Seq::empty(), JsonModel::Null)
                    },
            ),
        ),
    }
}

impl View for Json {
    type V = JsonModel;

    open spec fn view(&self) -> JsonModel {
        json_view(*self)
    }
}

/// The characters that may appear in a number literal.
pub open spec fn is_num_char(c: char) -> bool {
    ('0' <= c && c <= '9') || c == '-' || c == '+' || c == '.' || c == 'e' || c == 'E'
}

/// A number literal the serializer and parser agree on: non-empty, made of
/// number characters, and opening with a digit or a minus sign.
pub open spec fn num_text_ok(t: Seq<char>) -> bool {
    &&& t.len() > 0
    &&& (forall|i: int| 0 <= i < t.len() ==> is_num_char(#[trigger] t[i]))
    &&& (('0' <= t[0] && t[0] <= '9') || t[0] == '-')
}

/// Values the serializer represents faithfully.
pub open spec fn wf_json(m: JsonModel) -> bool
    decreases m,
{
    match m {
        JsonModel::Null => true,
        JsonModel::Bool(_) => true,
        JsonModel::Num(t) => num_text_ok(t),
        JsonModel::Str(_) => true,
        JsonModel::Arr(es) => forall|i: int| 0 <= i < es.len() ==> wf_json(#[trigger] es[i]),
        JsonModel::Obj(fs) => forall|i: int| 0 <= i < fs.len() ==> wf_json(#[trigger] fs[i].1),
    }
}

/// The hexadecimal digit characters, lower case.
pub open spec fn hex_char(d: nat) -> char {
    if d == 0 {
        '0'
    } else if d == 1 {
        '1'
    } else if d == 2 {
        '2'
    } else if d == 3 {
        '3'
    } else if d == 4 {
        '4'
    } else if d == 5 {
        '5'
    } else if d == 6 {
        '6'
    } else if d == 7 {
        '7'
    } else if d == 8 {
        '8'
    } else if d == 9 {
        '9'
    } else if d == 10 {
        'a'
    } else if d == 11 {
        'b'
    } else if d == 12 {
        'c'
    } else if d == 13 {
        'd'
    } else if d == 14 {
        'e'
    } else {
        'f'
    }
}

/// How one character is written inside a JSON string literal.
pub open spec fn esc_char(c: char) -> Seq<char> {
    if c == '"' {
        seq!['\\', '"']
    } else if c == '\\' {
        seq!['\\', '\\']
    } else if c == '\n' {
        seq!['\\', 'n']
    } else if c == '\r' {
        seq!['\\', 'r']
    } else if c == '\t' {
        seq!['\\', 't']
    } else if (c as u32) < 32 {
        seq!['\\', 'u', '0', '0', hex_char((c as u32 / 16) as nat), hex_char((c as u32 % 16) as nat)]
    } else {
        seq![c]
    }
}

/// How a whole string is written inside quotes.
pub open spec fn esc(s: Seq<char>) -> Seq<char>
    decreases s.len(),
{
    if s.len() == 0 {
        Seq::empty()
    } else {
        esc_char(s[0]).add(esc(s.subrange(1, s.len() as int)))
    }
}

/// Canonical serialization of a JSON value.
pub open spec fn ser(m: JsonModel) -> Seq<char>
    decreases m,
{
    match m {
        JsonModel::Null => seq!['n', 'u', 'l', 'l'],
        JsonModel::Bool(b) => if b {
            seq!['t', 'r', 'u', 'e']
        } else {
            seq!['f', 'a', 'l', 's', 'e']
        },
        JsonModel::Num(t) => t,
        JsonModel::Str(s) => seq!['"'].add(esc(s)).push('"'),
        JsonModel::Arr(es) => seq!['['].add(ser_items(es)).push(']'),
        JsonModel::Obj(fs) => seq!['{'].add(ser_fields(fs)).push('}'),
    }
}

/// The comma-separated elements of an array.
pub open spec fn ser_items(es: Seq<JsonModel>) -> Seq<char>
    decreases es,
{
    if es.len() == 0 {
        Seq::empty()
    } else if es.len() == 1 {
        ser(es[0])
    } else {
        ser(es[0]).push(',').add(ser_items(es.subrange(1, es.len() as int)))
    }
}

/// One `"key":value` pair.
pub open spec fn ser_field(f: (Seq<char>, JsonModel)) -> Seq<char>
    decreases f,
{
    seq!['"'].add(esc(f.0)).push('"').push(':').add(ser(f.1))
}

/// The comma-separated members of an object.
pub open spec fn ser_fields(fs: Seq<(Seq<char>, JsonModel)>) -> Seq<char>
    decreases fs,
{
    if fs.len() == 0 {
        Seq::empty()
    } else if fs.len() == 1 {
        ser_field(fs[0])
    } else {
        ser_field(fs[0]).push(',').add(ser_fields(fs.subrange(1, fs.len() as int)))
    }
}

proof fn lemma_esc_snoc(s: Seq<char>, c: char)
    ensures
        esc(s.push(c)) == esc(s).add(esc_char(c)),
    decreases s.len(),
{
    let sp = s.push(c);
    if s.len() == 0 {
        assert(sp.subrange(1, sp.len() as int) =~= Seq::<char>::empty());
        assert(esc(s) =~= Seq::<char>::empty());
        assert(sp[0] == c);
        assert(esc(sp.subrange(1, sp.len() as int)) == Seq::<char>::empty());
        assert(esc(sp) == esc_char(c).add(Seq::<char>::empty()));
        assert(esc(sp) =~= esc_char(c));
        assert(esc(s).add(esc_char(c)) =~= esc_char(c));
    } else {
        assert(sp.subrange(1, sp.len() as int) =~= s.subrange(1, s.len() as int).push(c));
        lemma_esc_snoc(s.subrange(1, s.len() as int), c);
        assert(esc(sp) == esc_char(s[0]).add(
            esc(s.subrange(1, s.len() as int)).add(esc_char(c)),
        ));
        assert(esc_char(s[0]).add(esc(s.subrange(1, s.len() as int)).add(esc_char(c))) =~= esc(
            s,
        ).add(esc_char(c)));
    }
}

proof fn lemma_ser_items_snoc(es: Seq<JsonModel>, x: JsonModel)
    ensures
        es.len() == 0 ==> ser_items(es.push(x)) == ser(x),
        es.len() > 0 ==> ser_items(es.push(x)) == ser_items(es).push(',').add(ser(x)),
    decreases es.len(),
{
    let ep = es.push(x);
    if es.len() == 0 {
        assert(ep.len() == 1);
        assert(ep[0] == x);
    } else if es.len() == 1 {
        assert(ep.len() == 2);
        assert(ep.subrange(1, 2) =~= seq![x]);
        assert(ser_items(ep) == ser(ep[0]).push(',').add(ser_items(ep.subrange(1, 2))));
        assert(ser_items(ep.subrange(1, 2)) == ser(x));
        assert(ep[0] == es[0]);
    } else {
        assert(ep.subrange(1, ep.len() as int) =~= es.subrange(1, es.len() as int).push(x));
        lemma_ser_items_snoc(es.subrange(1, es.len() as int), x);
        assert(ser_items(ep) == ser(ep[0]).push(',').add(
            ser_items(es.subrange(1, es.len() as int)).push(',').add(ser(x)),
        ));
        assert(ser(ep[0]).push(',').add(
            ser_items(es.subrange(1, es.len() as int)).push(',').add(ser(x)),
        ) =~= ser_items(es).push(',').add(ser(x)));
    }
}

proof fn lemma_ser_fields_snoc(fs: Seq<(Seq<char>, JsonModel)>, x: (Seq<char>, JsonModel))
    ensures
        fs.len() == 0 ==> ser_fields(fs.push(x)) == ser_field(x),
        fs.len() > 0 ==> ser_fields(fs.push(x)) == ser_fields(fs).push(',').add(ser_field(x)),
    decreases fs.len(),
{
    let fp = fs.push(x);
    if fs.len() == 0 {
        assert(fp.len() == 1);
        assert(fp[0] == x);
    } else if fs.len() == 1 {
        assert(fp.subrange(1, 2) =~= seq![x]);
        assert(ser_fields(fp) == ser_field(fp[0]).push(',').add(ser_fields(fp.subrange(1, 2))));
        assert(fp[0] == fs[0]);
    } else {
        assert(fp.subrange(1, fp.len() as int) =~= fs.subrange(1, fs.len() as int).push(x));
        lemma_ser_fields_snoc(fs.subrange(1, fs.len() as int), x);
        assert(ser_fields(fp) == ser_field(fp[0]).push(',').add(
            ser_fields(fs.subrange(1, fs.len() as int)).push(',').add(ser_field(x)),
        ));
        assert(ser_field(fp[0]).push(',').add(
            ser_fields(fs.subrange(1, fs.len() as int)).push(',').add(ser_field(x)),
        ) =~= ser_fields(fs).push(',').add(ser_field(x)));
    }
}

fn hex_digit_char(d: u32) -> (r: char)
    requires
        d < 16,
    ensures
        r == hex_char(d as nat),
{
    if d == 0 {
        '0'
    } else if d == 1 {
        '1'
    } else if d == 2 {
        '2'
    } else if d == 3 {
        '3'
    } else if d == 4 {
        '4'
    } else if d == 5 {
        '5'
    } else if d == 6 {
        '6'
    } else if d == 7 {
        '7'
    } else if d == 8 {
        '8'
    } else if d == 9 {
        '9'
    } else if d == 10 {
        'a'
    } else if d == 11 {
        'b'
    } else if d == 12 {
        'c'
    } else if d == 13 {
        'd'
    } else if d == 14 {
        'e'
    } else {
        'f'
    }
}

/// Append one character of a string literal, escaped as `esc_char` says.
fn push_escaped(out: &mut String, c: char)
    ensures
        final(out)@ == old(out)@.add(esc_char(c)),
{
    if c == '"' {
        crate::text::push_char(out, '\\');
        crate::text::push_char(out, '"');
        proof {
            assert(out@ =~= old(out)@.add(esc_char(c)));
        }
    } else if c == '\\' {
        crate::text::push_char(out, '\\');
        crate::text::push_char(out, '\\');
        proof {
            assert(out@ =~= old(out)@.add(esc_char(c)));
        }
    } else if c == '\n' {
        crate::text::push_char(out, '\\');
        crate::text::push_char(out, 'n');
        proof {
            assert(out@ =~= old(out)@.add(esc_char(c)));
        }
    } else if c == '\r' {
        crate::text::push_char(out, '\\');
        crate::text::push_char(out, 'r');
        proof {
            assert(out@ =~= old(out)@.add(esc_char(c)));
        }
    } else if c == '\t' {
        crate::text::push_char(out, '\\');
        crate::text::push_char(out, 't');
        proof {
            assert(out@ =~= old(out)@.add(esc_char(c)));
        }
    } else {
        let u = c as u32;
        if u < 32 {
            crate::text::push_char(out, '\\');
            crate::text::push_char(out, 'u');
            crate::text::push_char(out, '0');
            crate::text::push_char(out, '0');
            crate::text::push_char(out, hex_digit_char(u / 16));
            crate::text::push_char(out, hex_digit_char(u % 16));
            proof {
                assert(out@ =~= old(out)@.add(esc_char(c)));
            }
        } else {
            crate::text::push_char(out, c);
            proof {
                assert(out@ =~= old(out)@.add(esc_char(c)));
            }
        }
    }
}

/// Append the escaped form of a whole string.
fn push_escaped_str(out: &mut String, s: &str)
    ensures
        final(out)@ == old(out)@.add(esc(s@)),
{
    let n = s.unicode_len();
    let mut i: usize = 0;
    proof {
        assert(s@.subrange(0, 0) =~= Seq::<char>::empty());
        assert(esc(s@.subrange(0, 0)) =~= Seq::<char>::empty());
        assert(out@ =~= old(out)@.add(esc(s@.subrange(0, 0))));
    }
    while i < n
        invariant
            0 <= i <= n,
            n == s@.len(),
            out@ == old(out)@.add(esc(s@.subrange(0, i as int))),
        decreases n - i,
    {
        push_escaped(out, s.get_char(i));
        proof {
            assert(s@.subrange(0, i + 1) =~= s@.subrange(0, i as int).push(s@[i as int]));
            lemma_esc_snoc(s@.subrange(0, i as int), s@[i as int]);
        }
        i = i + 1;
    }
    proof {
        assert(s@.subrange(0, n as int) =~= s@);
    }
}

/// Copy a JSON value.
#[verifier::loop_isolation(false)]
pub fn clone_json(j: &Json) -> (r: Json)
    ensures
        r@ == j@,
    decreases *j,
{
    match j {
        Json::Null => Json::Null,
        Json::Bool(b) => Json::Bool(*b),
        Json::Num(t) => Json::Num(t.clone()),
        Json::Str(s) => Json::Str(s.clone()),
        Json::Arr(items) => {
            let mut out: Vec<Json> = Vec::new();
            let mut i: usize = 0;
            while i < items.len()
                invariant
                    0 <= i <= items@.len(),
                    out@.len() == i,
                    forall|k: int| 0 <= k < i ==> json_view(#[trigger] out@[k]) == json_view(
                        items@[k],
                    ),
                decreases items@.len() - i,
            {
                proof {
                    assert(decreases_to!(*j => items@[i as int]));
                }
                let c = clone_json(&items[i]);
                out.push(c);
                i = i + 1;
            }
            let r = Json::Arr(out);
            proof {
                assert(r@ matches JsonModel::Arr(ms) && j@ matches JsonModel::Arr(ns) && ms =~= ns);
            }
            r
        },
        Json::Obj(fields) => {
            let mut out: Vec<(String, Json)> = Vec::new();
            let mut i: usize = 0;
            while i < fields.len()
                invariant
                    0 <= i <= fields@.len(),
                    out@.len() == i,
                    forall|k: int|
                        0 <= k < i ==> (#[trigger] out@[k]).0@ == fields@[k].0@ && json_view(
                            out@[k].1,
                        ) == json_view(fields@[k].1),
                decreases fields@.len() - i,
            {
                proof {
                    assert(decreases_to!(*j => fields@[i as int].1));
                }
                let c = clone_json(&fields[i].1);
                let k = fields[i].0.clone();
                out.push((k, c));
                i = i + 1;
            }
            let r = Json::Obj(out);
            proof {
                assert(r@ matches JsonModel::Obj(ms) && j@ matches JsonModel::Obj(ns) && ms =~= ns);
            }
            r
        },
    }
}

/// Serialize a JSON value into its canonical text.
#[verifier::loop_isolation(false)]
pub fn serialize_json(j: &Json) -> (r: String)
    ensures
        r@ == ser(j@),
    decreases *j,
{
    match j {
        Json::Null => {
            let mut out = String::new();
            crate::text::push_char(&mut out, 'n');
            crate::text::push_char(&mut out, 'u');
            crate::text::push_char(&mut out, 'l');
            crate::text::push_char(&mut out, 'l');
            proof {
                assert(out@ =~= ser(j@));
            }
            out
        },
        Json::Bool(b) => {
            let mut out = String::new();
            if *b {
                crate::text::push_char(&mut out, 't');
                crate::text::push_char(&mut out, 'r');
                crate::text::push_char(&mut out, 'u');
                crate::text::push_char(&mut out, 'e');
            } else {
                crate::text::push_char(&mut out, 'f');
                crate::text::push_char(&mut out, 'a');
                crate::text::push_char(&mut out, 'l');
                crate::text::push_char(&mut out, 's');
                crate::text::push_char(&mut out, 'e');
            }
            proof {
                assert(out@ =~= ser(j@));
            }
            out
        },
        Json::Num(t) => {
            let r = t.clone();
            r
        },
        Json::Str(s) => {
            let mut out = String::new();
            crate::text::push_char(&mut out, '"');
            push_escaped_str(&mut out, s.as_str());
            crate::text::push_char(&mut out, '"');
            proof {
                assert(out@ =~= ser(j@));
            }
            out
        },
        Json::Arr(items) => {
            let mut out = String::new();
            crate::text::push_char(&mut out, '[');
            let ghost ms = j@->Arr_0;
            let mut i: usize = 0;
            proof {
                assert(ms.len() == items@.len());
                assert(ms.take(0) =~= Seq::<JsonModel>::empty());
                assert(out@ =~= seq!['['].add(ser_items(ms.take(0))));
            }
            while i < items.len()
                invariant
                    0 <= i <= items@.len(),
                    ms.len() == items@.len(),
                    forall|k: int| 0 <= k < items@.len() ==> ms[k] == json_view(items@[k]),
                    out@ == seq!['['].add(ser_items(ms.take(i as int))),
                decreases items@.len() - i,
            {
                if i > 0 {
                    crate::text::push_char(&mut out, ',');
                }
                proof {
                    assert(decreases_to!(*j => items@[i as int]));
                }
                let piece = serialize_json(&items[i]);
                out.append(piece.as_str());
                proof {
                    assert(ms.take(i + 1) =~= ms.take(i as int).push(ms[i as int]));
                    lemma_ser_items_snoc(ms.take(i as int), ms[i as int]);
                    assert(out@ =~= seq!['['].add(ser_items(ms.take(i + 1))));
                }
                i = i + 1;
            }
            crate::text::push_char(&mut out, ']');
            proof {
                assert(ms.take(ms.len() as int) =~= ms);
                assert(out@ =~= ser(j@));
            }
            out
        },
        Json::Obj(fields) => {
            let mut out = String::new();
            crate::text::push_char(&mut out, '{');
            let ghost ms = j@->Obj_0;
            let mut i: usize = 0;
            proof {
                assert(ms.len() == fields@.len());
                assert(ms.take(0) =~= Seq::<(Seq<char>, JsonModel)>::empty());
                assert(out@ =~= seq!['{'].add(ser_fields(ms.take(0))));
            }
            while i < fields.len()
                invariant
                    0 <= i <= fields@.len(),
                    ms.len() == fields@.len(),
                    forall|k: int|
                        0 <= k < fields@.len() ==> ms[k] == (
                        fields@[k].0@,
                        json_view(fields@[k].1),
                        ),
                    out@ == seq!['{'].add(ser_fields(ms.take(i as int))),
                decreases fields@.len() - i,
            {
                if i > 0 {
                    crate::text::push_char(&mut out, ',');
                }
                crate::text::push_char(&mut out, '"');
                push_escaped_str(&mut out, fields[i].0.as_str());
                crate::text::push_char(&mut out, '"');
                crate::text::push_char(&mut out, ':');
                proof {
                    assert(decreases_to!(*j => fields@[i as int].1));
                }
                let piece = serialize_json(&fields[i].1);
                out.append(piece.as_str());
                proof {
                    assert(ms.take(i + 1) =~= ms.take(i as int).push(ms[i as int]));
                    lemma_ser_fields_snoc(ms.take(i as int), ms[i as int]);
                    assert(out@ =~= seq!['{'].add(ser_fields(ms.take(i + 1))));
                }
                i = i + 1;
            }
            crate::text::push_char(&mut out, '}');
            proof {
                assert(ms.take(ms.len() as int) =~= ms);
                assert(out@ =~= ser(j@));
            }
            out
        },
    }
}


/// The text at position `i` reads as the canonical form of `m` followed by
/// `rest`, and `rest` cannot extend a number literal.
pub open spec fn val_at(s: Seq<char>, i: int, m: JsonModel, rest: Seq<char>) -> bool {
    &&& wf_json(m)
    &&& 0 <= i <= s.len()
    &&& s.subrange(i, s.len() as int) == ser(m).add(rest)
    &&& (m is Num ==> !(rest.len() > 0 && is_num_char(rest[0])))
}

/// The text at position `i` reads as the escaped body and closing quote of a
/// string literal for `sv`, followed by `rest`.
pub open spec fn str_body_at(s: Seq<char>, i: int, sv: Seq<char>, rest: Seq<char>) -> bool {
    &&& 0 <= i <= s.len()
    &&& s.subrange(i, s.len() as int) == esc(sv).push('"').add(rest)
}

pub proof fn lemma_tail_shift(s: Seq<char>, i: int, a: Seq<char>, b: Seq<char>)
    requires
        0 <= i <= s.len(),
        s.subrange(i, s.len() as int) == a.add(b),
    ensures
        i + a.len() + b.len() == s.len(),
        s.subrange(i + a.len(), s.len() as int) == b,
        forall|k: int| 0 <= k < a.len() ==> s[i + k] == a[k],
{
    let t = s.subrange(i, s.len() as int);
    assert(t.len() == a.len() + b.len());
    assert forall|k: int| 0 <= k < a.len() implies s[i + k] == a[k] by {
        assert(t[k] == a.add(b)[k]);
    }
    assert forall|k: int|
        0 <= k < b.len() implies s.subrange(i + a.len(), s.len() as int)[k] == b[k] by {
        assert(t[a.len() + k] == a.add(b)[a.len() + k]);
    }
    assert(s.subrange(i + a.len(), s.len() as int) =~= b);
}

/// Splitting a string splits its escaped form.
proof fn lemma_esc_concat(a: Seq<char>, b: Seq<char>)
    ensures
        esc(a.add(b)) == esc(a).add(esc(b)),
    decreases a.len(),
{
    if a.len() == 0 {
        assert(a.add(b) =~= b);
        assert(esc(a) =~= Seq::<char>::empty());
        assert(esc(a).add(esc(b)) =~= esc(b));
    } else {
        let ab = a.add(b);
        assert(ab.len() > 0);
        assert(ab[0] == a[0]);
        assert(ab.subrange(1, ab.len() as int) =~= a.subrange(1, a.len() as int).add(b));
        lemma_esc_concat(a.subrange(1, a.len() as int), b);
        assert(esc_char(a[0]).add(esc(a.subrange(1, a.len() as int)).add(esc(b))) =~= esc_char(
            a[0],
        ).add(esc(a.subrange(1, a.len() as int))).add(esc(b)));
    }
}

/// Elements of an array serialize piecewise.
proof fn lemma_ser_items_concat(a: Seq<JsonModel>, b: Seq<JsonModel>)
    ensures
        a.len() == 0 ==> ser_items(a.add(b)) == ser_items(b),
        b.len() == 0 ==> ser_items(a.add(b)) == ser_items(a),
        a.len() > 0 && b.len() > 0 ==> ser_items(a.add(b)) == ser_items(a).push(',').add(
            ser_items(b),
        ),
    decreases a.len(),
{
    let ab = a.add(b);
    if a.len() == 0 {
        assert(ab =~= b);
    } else if b.len() == 0 {
        assert(ab =~= a);
    } else {
        assert(ab.len() >= 2);
        assert(ab[0] == a[0]);
        assert(ab.subrange(1, ab.len() as int) =~= a.subrange(1, a.len() as int).add(b));
        lemma_ser_items_concat(a.subrange(1, a.len() as int), b);
        if a.len() == 1 {
            assert(a.subrange(1, 1) =~= Seq::<JsonModel>::empty());
            assert(ser_items(ab) == ser(ab[0]).push(',').add(ser_items(b)));
            assert(ser_items(a) == ser(a[0]));
        } else {
            assert(ser_items(ab) == ser(a[0]).push(',').add(
                ser_items(a.subrange(1, a.len() as int)).push(',').add(ser_items(b)),
            ));
            assert(ser(a[0]).push(',').add(
                ser_items(a.subrange(1, a.len() as int)).push(',').add(ser_items(b)),
            ) =~= ser_items(a).push(',').add(ser_items(b)));
        }
    }
}

/// Members of an object serialize piecewise.
proof fn lemma_ser_fields_concat(a: Seq<(Seq<char>, JsonModel)>, b: Seq<(Seq<char>, JsonModel)>)
    ensures
        a.len() == 0 ==> ser_fields(a.add(b)) == ser_fields(b),
        b.len() == 0 ==> ser_fields(a.add(b)) == ser_fields(a),
        a.len() > 0 && b.len() > 0 ==> ser_fields(a.add(b)) == ser_fields(a).push(',').add(
            ser_fields(b),
        ),
    decreases a.len(),
{
    let ab = a.add(b);
    if a.len() == 0 {
        assert(ab =~= b);
    } else if b.len() == 0 {
        assert(ab =~= a);
    } else {
        assert(ab.len() >= 2);
        assert(ab[0] == a[0]);
        assert(ab.subrange(1, ab.len() as int) =~= a.subrange(1, a.len() as int).add(b));
        lemma_ser_fields_concat(a.subrange(1, a.len() as int), b);
        if a.len() == 1 {
            assert(a.subrange(1, 1) =~= Seq::<(Seq<char>, JsonModel)>::empty());
            assert(ser_fields(ab) == ser_field(ab[0]).push(',').add(ser_fields(b)));
            assert(ser_fields(a) == ser_field(a[0]));
        } else {
            assert(ser_fields(ab) == ser_field(a[0]).push(',').add(
                ser_fields(a.subrange(1, a.len() as int)).push(',').add(ser_fields(b)),
            ));
            assert(ser_field(a[0]).push(',').add(
                ser_fields(a.subrange(1, a.len() as int)).push(',').add(ser_fields(b)),
            ) =~= ser_fields(a).push(',').add(ser_fields(b)));
        }
    }
}

/// The first character of a canonical serialization names the variant.
pub proof fn lemma_ser_head(m: JsonModel)
    requires
        wf_json(m),
    ensures
        ser(m).len() > 0,
        m is Null ==> ser(m)[0] == 'n',
        m matches JsonModel::Bool(b) ==> ser(m)[0] == (if b {
            't'
        } else {
            'f'
        }),
        m is Num ==> (('0' <= ser(m)[0] && ser(m)[0] <= '9') || ser(m)[0] == '-'),
        m is Str ==> ser(m)[0] == '"',
        m is Arr ==> ser(m)[0] == '[',
        m is Obj ==> ser(m)[0] == '{',
        !is_space(ser(m)[0]),
{
    match m {
        JsonModel::Null => {},
        JsonModel::Bool(b) => {},
        JsonModel::Num(t) => {
            assert(ser(m) == t);
        },
        JsonModel::Str(s) => {
            assert(ser(m)[0] == '"');
        },
        JsonModel::Arr(es) => {
            assert(ser(m)[0] == '[');
        },
        JsonModel::Obj(fs) => {
            assert(ser(m)[0] == '{');
        },
    }
}

/// Skip whitespace from `i`; land on the first non-space character or the end.
fn skip_ws(cs: &Vec<char>, i: usize) -> (j: usize)
    requires
        i <= cs@.len(),
    ensures
        i <= j <= cs@.len(),
        forall|k: int| i <= k < j ==> is_space(cs@[k]),
        j < cs@.len() ==> !is_space(cs@[j as int]),
{
    let mut j = i;
    while j < cs.len() && is_space_char_local(cs[j])
        invariant
            i <= j <= cs@.len(),
            forall|k: int| i <= k < j ==> is_space(cs@[k]),
        decreases cs@.len() - j,
    {
        j = j + 1;
    }
    j
}

fn is_space_char_local(c: char) -> (r: bool)
    ensures
        r == is_space(c),
{
    c == ' ' || c == '\t' || c == '\n' || c == '\r'
}

fn is_num_char_exec(c: char) -> (r: bool)
    ensures
        r == is_num_char(c),
{
    ('0' <= c && c <= '9') || c == '-' || c == '+' || c == '.' || c == 'e' || c == 'E'
}

/// Copy the character range `[a, b)` into a string.
fn string_from_range(cs: &Vec<char>, a: usize, b: usize) -> (r: String)
    requires
        a <= b <= cs@.len(),
    ensures
        r@ == cs@.subrange(a as int, b as int),
{
    let mut s = String::new();
    let mut i = a;
    proof {
        assert(s@ =~= cs@.subrange(a as int, a as int));
    }
    while i < b
        invariant
            a <= i <= b <= cs@.len(),
            s@ == cs@.subrange(a as int, i as int),
        decreases b - i,
    {
        crate::text::push_char(&mut s, cs[i]);
        proof {
            assert(cs@.subrange(a as int, i + 1) =~= cs@.subrange(a as int, i as int).push(
                cs@[i as int],
            ));
        }
        i = i + 1;
    }
    s
}

/// The value of one hexadecimal digit, if `c` is one. For every `d < 16`,
/// the digit `hex_char(d)` maps back to `d`.
fn hex_val(c: char) -> (r: Option<u32>)
    ensures
        r matches Some(v) ==> v < 16,
        forall|d: nat| d < 16 && hex_char(d) == c ==> r == Some(d as u32),
{
    if c == '0' {
        Some(0)
    } else if c == '1' {
        Some(1)
    } else if c == '2' {
        Some(2)
    } else if c == '3' {
        Some(3)
    } else if c == '4' {
        Some(4)
    } else if c == '5' {
        Some(5)
    } else if c == '6' {
        Some(6)
    } else if c == '7' {
        Some(7)
    } else if c == '8' {
        Some(8)
    } else if c == '9' {
        Some(9)
    } else if c == 'a' || c == 'A' {
        Some(10)
    } else if c == 'b' || c == 'B' {
        Some(11)
    } else if c == 'c' || c == 'C' {
        Some(12)
    } else if c == 'd' || c == 'D' {
        Some(13)
    } else if c == 'e' || c == 'E' {
        Some(14)
    } else if c == 'f' || c == 'F' {
        Some(15)
    } else {
        None
    }
}

/// Relies on `char::from_u32`: `Some` exactly for scalar values outside the
/// surrogate range, holding the character with that scalar value.
#[verifier::external_body]
fn char_from_u32(u: u32) -> (r: Option<char>)
    ensures
        (u < 0xD800 || (0xE000 <= u && u <= 0x10FFFF)) <==> r is Some,
        r matches Some(c) ==> (c as u32) == u,
{
    char::from_u32(u)
}

proof fn lemma_esc_unfold(sv: Seq<char>, k: int)
    requires
        0 <= k < sv.len(),
    ensures
        esc(sv.subrange(k, sv.len() as int)) == esc_char(sv[k]).add(
            esc(sv.subrange(k + 1, sv.len() as int)),
        ),
{
    let t = sv.subrange(k, sv.len() as int);
    assert(t.len() > 0);
    assert(t[0] == sv[k]);
    assert(t.subrange(1, t.len() as int) =~= sv.subrange(k + 1, sv.len() as int));
}

/// What remains of a string body after its first `k` characters were decoded.
proof fn lemma_str_rem(s: Seq<char>, i: int, sv: Seq<char>, rest: Seq<char>, k: int)
    requires
        str_body_at(s, i, sv, rest),
        0 <= k <= sv.len(),
    ensures
        i + esc(sv.subrange(0, k)).len() <= s.len(),
        s.subrange(i + esc(sv.subrange(0, k)).len(), s.len() as int) == esc(
            sv.subrange(k, sv.len() as int),
        ).push('"').add(rest),
{
    let a = sv.subrange(0, k);
    let b = sv.subrange(k, sv.len() as int);
    assert(sv =~= a.add(b));
    lemma_esc_concat(a, b);
    assert(esc(sv).push('"').add(rest) =~= esc(a).add(esc(b).push('"').add(rest)));
    lemma_tail_shift(s, i, esc(a), esc(b).push('"').add(rest));
}

/// Every escape unit is 1, 2, or 6 characters; its shape pins the character.
proof fn lemma_esc_char_shape(c0: char)
    ensures
        esc_char(c0).len() == 1 || esc_char(c0).len() == 2 || esc_char(c0).len() == 6,
        esc_char(c0)[0] != '"',
        esc_char(c0).len() == 1 ==> esc_char(c0)[0] == c0 && c0 != '"' && c0 != '\\',
        (esc_char(c0)[0] == '\\') <==> esc_char(c0).len() >= 2,
        esc_char(c0).len() == 2 ==> ((esc_char(c0)[1] == '"' <==> c0 == '"') && (esc_char(c0)[1]
            == '\\' <==> c0 == '\\') && (esc_char(c0)[1] == 'n' <==> c0 == '\n') && (esc_char(
            c0,
        )[1] == 'r' <==> c0 == '\r') && (esc_char(c0)[1] == 't' <==> c0 == '\t') && (esc_char(
            c0,
        )[1] == '"' || esc_char(c0)[1] == '\\' || esc_char(c0)[1] == 'n' || esc_char(c0)[1] == 'r'
            || esc_char(c0)[1] == 't')),
        esc_char(c0).len() == 6 ==> esc_char(c0)[1] == 'u' && esc_char(c0)[2] == '0' && esc_char(
            c0,
        )[3] == '0' && (c0 as u32) < 32 && esc_char(c0)[4] == hex_char(
            ((c0 as u32) / 16) as nat,
        ) && esc_char(c0)[5] == hex_char(((c0 as u32) % 16) as nat),
{
}

/// Parse the body of a string literal, starting just past the opening quote
/// and consuming through the closing quote. Decodes the standard JSON
/// escapes; a decoded string body always comes back exactly.
#[verifier::loop_isolation(false)]
#[verifier::rlimit(60)]
fn parse_string_body(cs: &Vec<char>, i: usize) -> (r: (Option<String>, usize))
    requires
        i <= cs@.len(),
    ensures
        i <= r.1 <= cs@.len(),
        r.0 is Some ==> r.1 > i,
        forall|sv: Seq<char>, rest: Seq<char>|
            str_body_at(cs@, i as int, sv, rest) ==> (r.0 matches Some(out) && out@ == sv && r.1
                == i + esc(sv).len() + 1),
{
    let ghost s = cs@;
    let mut out = String::new();
    let mut pos = i;
    proof {
        assert(out@ =~= Seq::<char>::empty());
        assert(esc(out@) =~= Seq::<char>::empty());
        assert forall|sv: Seq<char>, rest: Seq<char>|
            str_body_at(s, i as int, sv, rest) implies (out@.len() <= sv.len() && sv.subrange(
            0,
            out@.len() as int,
        ) == out@ && pos == i + esc(out@).len()) by {
            assert(sv.subrange(0, 0) =~= Seq::<char>::empty());
        }
    }
    loop
        invariant
            i <= pos <= s.len(),
            forall|sv: Seq<char>, rest: Seq<char>|
                str_body_at(s, i as int, sv, rest) ==> (out@.len() <= sv.len() && sv.subrange(
                    0,
                    out@.len() as int,
                ) == out@ && pos == i + esc(out@).len()),
        decreases s.len() - pos,
    {
        let ghost k = out@.len() as int;
        if pos >= cs.len() {
            proof {
                assert forall|sv: Seq<char>, rest: Seq<char>| !str_body_at(
                    s,
                    i as int,
                    sv,
                    rest,
                ) by {
                    if str_body_at(s, i as int, sv, rest) {
                        assert(out@.len() <= sv.len() && sv.subrange(0, out@.len() as int) == out@
                            && pos == i + esc(out@).len());
                        assert(esc(sv.subrange(0, k)) == esc(out@));
                        lemma_str_rem(s, i as int, sv, rest, k);
                        assert(s.subrange(pos as int, s.len() as int) == esc(
                            sv.subrange(k, sv.len() as int),
                        ).push('"').add(rest));
                        assert(s.subrange(pos as int, s.len() as int).len() >= 1);
                        assert(false);
                    }
                }
            }
            return (None, pos);
        }
        let c = cs[pos];
        proof {
            assert forall|sv: Seq<char>, rest: Seq<char>|
                str_body_at(s, i as int, sv, rest) implies ({
                let b = sv.subrange(k, sv.len() as int);
                &&& s.subrange(pos as int, s.len() as int) == esc(b).push('"').add(rest)
                &&& (k < sv.len() ==> esc(b) == esc_char(sv[k]).add(
                    esc(sv.subrange(k + 1, sv.len() as int)),
                ))
            }) by {
                assert(sv.subrange(0, k) == out@);
                assert(esc(out@) == esc(sv.subrange(0, k)));
                lemma_str_rem(s, i as int, sv, rest, k);
                if k < sv.len() {
                    lemma_esc_unfold(sv, k);
                }
            }
        }
        if c == '"' {
            let end = pos + 1;
            proof {
                assert forall|sv: Seq<char>, rest: Seq<char>|
                    str_body_at(s, i as int, sv, rest) implies (out@ == sv && end == i + esc(
                    sv,
                ).len() + 1) by {
                    let b = sv.subrange(k, sv.len() as int);
                    let rem = esc(b).push('"').add(rest);
                    assert(s[pos as int] == s.subrange(pos as int, s.len() as int)[0]);
                    if k < sv.len() {
                        lemma_esc_char_shape(sv[k]);
                        assert(esc(b)[0] == esc_char(sv[k])[0]);
                        assert(rem[0] == esc(b)[0]);
                        assert(false);
                    }
                    assert(b =~= Seq::<char>::empty());
                    assert(esc(b) =~= Seq::<char>::empty());
                    assert(sv.subrange(0, k) =~= sv);
                    assert(esc(out@) == esc(sv));
                }
            }
            return (Some(out), end);
        } else if c == '\\' {
            if pos + 1 >= cs.len() {
                proof {
                    assert forall|sv: Seq<char>, rest: Seq<char>| !str_body_at(
                        s,
                        i as int,
                        sv,
                        rest,
                    ) by {
                        if str_body_at(s, i as int, sv, rest) {
                            let b = sv.subrange(k, sv.len() as int);
                            let rem = esc(b).push('"').add(rest);
                            assert(s[pos as int] == s.subrange(pos as int, s.len() as int)[0]);
                            if k < sv.len() {
                                lemma_esc_char_shape(sv[k]);
                                assert(esc(b)[0] == esc_char(sv[k])[0]);
                                assert(rem[0] == esc(b)[0]);
                                assert(esc_char(sv[k]).len() >= 2);
                                assert(rem.len() >= 3);
                                assert(s.len() - pos == rem.len());
                            } else {
                                assert(esc(b) =~= Seq::<char>::empty());
                                assert(rem[0] == '"');
                            }
                        }
                    }
                }
                return (None, pos);
            }
            let y = cs[pos + 1];
            proof {
                assert forall|sv: Seq<char>, rest: Seq<char>|
                    str_body_at(s, i as int, sv, rest) implies (k < sv.len() && esc_char(
                    sv[k],
                ).len() >= 2 && esc_char(sv[k])[1] == y) by {
                    let b = sv.subrange(k, sv.len() as int);
                    let rem = esc(b).push('"').add(rest);
                    assert(s[pos as int] == s.subrange(pos as int, s.len() as int)[0]);
                    assert(s[pos + 1] == s.subrange(pos as int, s.len() as int)[1]);
                    if k == sv.len() {
                        assert(esc(b) =~= Seq::<char>::empty());
                        assert(rem[0] == '"');
                        assert(false);
                    }
                    lemma_esc_char_shape(sv[k]);
                    assert(esc(b)[0] == esc_char(sv[k])[0]);
                    assert(rem[0] == esc(b)[0]);
                    assert(esc_char(sv[k]).len() >= 2);
                    assert(esc(b).len() >= 2);
                    assert(rem[1] == esc(b)[1]);
                    assert(esc(b)[1] == esc_char(sv[k])[1]);
                }
            }
            let decoded: Option<char> = if y == '"' {
                Some('"')
            } else if y == '\\' {
                Some('\\')
            } else if y == '/' {
                Some('/')
            } else if y == 'n' {
                Some('\n')
            } else if y == 'r' {
                Some('\r')
            } else if y == 't' {
                Some('\t')
            } else if y == 'b' {
                Some('\u{8}')
            } else if y == 'f' {
                Some('\u{c}')
            } else {
                None
            };
            if y == 'u' {
                if cs.len() - pos < 6 {
                    proof {
                        assert forall|sv: Seq<char>, rest: Seq<char>| !str_body_at(
                            s,
                            i as int,
                            sv,
                            rest,
                        ) by {
                            if str_body_at(s, i as int, sv, rest) {
                                let b = sv.subrange(k, sv.len() as int);
                                let rem = esc(b).push('"').add(rest);
                                lemma_esc_char_shape(sv[k]);
                                assert(esc_char(sv[k]).len() == 6);
                                assert(esc(b).len() >= 6);
                                assert(rem.len() >= 7);
                                assert(s.len() - pos == rem.len());
                            }
                        }
                    }
                    return (None, pos);
                }
                let h1 = hex_val(cs[pos + 2]);
                let h2 = hex_val(cs[pos + 3]);
                let h3 = hex_val(cs[pos + 4]);
                let h4 = hex_val(cs[pos + 5]);
                match (h1, h2, h3, h4) {
                    (Some(v1), Some(v2), Some(v3), Some(v4)) => {
                        let code: u32 = v1 * 4096 + v2 * 256 + v3 * 16 + v4;
                        match char_from_u32(code) {
                            Some(d) => {
                                proof {
                                    assert forall|sv: Seq<char>, rest: Seq<char>|
                                        str_body_at(s, i as int, sv, rest) implies (d == sv[k]
                                        && esc_char(sv[k]).len() == 6) by {
                                        let b = sv.subrange(k, sv.len() as int);
                                        let rem = esc(b).push('"').add(rest);
                                        lemma_esc_char_shape(sv[k]);
                                        assert(esc_char(sv[k]).len() == 6);
                                        assert(esc(b).len() >= 6);
                                        assert(s[pos + 2] == rem[2]);
                                        assert(s[pos + 3] == rem[3]);
                                        assert(s[pos + 4] == rem[4]);
                                        assert(s[pos + 5] == rem[5]);
                                        assert(rem[2] == esc(b)[2] && esc(b)[2] == esc_char(
                                            sv[k],
                                        )[2]);
                                        assert(rem[3] == esc(b)[3] && esc(b)[3] == esc_char(
                                            sv[k],
                                        )[3]);
                                        assert(rem[4] == esc(b)[4] && esc(b)[4] == esc_char(
                                            sv[k],
                                        )[4]);
                                        assert(rem[5] == esc(b)[5] && esc(b)[5] == esc_char(
                                            sv[k],
                                        )[5]);
                                        let u0 = sv[k] as u32;
                                        assert(u0 < 32);
                                        assert(hex_char(0nat) == '0');
                                        assert(v1 == 0 && v2 == 0);
                                        assert(v3 == u0 / 16 && v4 == u0 % 16);
                                        assert(code == u0) by (nonlinear_arith)
                                            requires v1 == 0, v2 == 0, v3 == u0 / 16, v4 == u0 % 16, u0 < 32, code == v1 * 4096 + v2 * 256 + v3 * 16 + v4;
                                        assert((d as u32) == (sv[k] as u32));
                                        vstd::utf8::char_u32_cast(d, code);
                                        vstd::utf8::char_u32_cast(sv[k], code);
                                        assert(d == sv[k]);
                                    }
                                }
                                crate::text::push_char(&mut out, d);
                                let newpos = pos + 6;
                                proof {
                                    assert forall|sv: Seq<char>, rest: Seq<char>|
                                        str_body_at(s, i as int, sv, rest) implies (out@.len()
                                        <= sv.len() && sv.subrange(0, out@.len() as int) == out@
                                        && newpos == i + esc(out@).len()) by {
                                        assert(sv.subrange(0, k + 1) =~= sv.subrange(0, k).push(
                                            sv[k],
                                        ));
                                        lemma_esc_snoc(sv.subrange(0, k), sv[k]);
                                        assert(esc_char(sv[k]).len() == 6);
                                    }
                                }
                                pos = newpos;
                            },
                            None => {
                                proof {
                                    assert forall|sv: Seq<char>, rest: Seq<char>| !str_body_at(
                                        s,
                                        i as int,
                                        sv,
                                        rest,
                                    ) by {
                                        if str_body_at(s, i as int, sv, rest) {
                                            let b = sv.subrange(k, sv.len() as int);
                                            let rem = esc(b).push('"').add(rest);
                                            lemma_esc_char_shape(sv[k]);
                                            assert(esc(b).len() >= 6);
                                            assert(s[pos + 2] == rem[2]);
                                            assert(s[pos + 3] == rem[3]);
                                            assert(s[pos + 4] == rem[4]);
                                            assert(s[pos + 5] == rem[5]);
                                            assert(rem[2] == esc_char(sv[k])[2]);
                                            assert(rem[3] == esc_char(sv[k])[3]);
                                            assert(rem[4] == esc_char(sv[k])[4]);
                                            assert(rem[5] == esc_char(sv[k])[5]);
                                            let u0 = sv[k] as u32;
                                            assert(u0 < 32);
                                            assert(hex_char(0nat) == '0');
                                            assert(v1 == 0 && v2 == 0);
                                            assert(v3 == u0 / 16 && v4 == u0 % 16);
                                            assert(code == u0) by (nonlinear_arith)
                                                requires v1 == 0, v2 == 0, v3 == u0 / 16, v4 == u0 % 16, u0 < 32, code == v1 * 4096 + v2 * 256 + v3 * 16 + v4;
                                        }
                                    }
                                }
                                return (None, pos);
                            },
                        }
                    },
                    _ => {
                        proof {
                            assert forall|sv: Seq<char>, rest: Seq<char>| !str_body_at(
                                s,
                                i as int,
                                sv,
                                rest,
                            ) by {
                                if str_body_at(s, i as int, sv, rest) {
                                    let b = sv.subrange(k, sv.len() as int);
                                    let rem = esc(b).push('"').add(rest);
                                    lemma_esc_char_shape(sv[k]);
                                    assert(esc_char(sv[k]).len() == 6);
                                    assert(esc(b).len() >= 6);
                                    assert(s[pos + 2] == rem[2]);
                                    assert(s[pos + 3] == rem[3]);
                                    assert(s[pos + 4] == rem[4]);
                                    assert(s[pos + 5] == rem[5]);
                                    assert(rem[2] == esc_char(sv[k])[2]);
                                    assert(rem[3] == esc_char(sv[k])[3]);
                                    assert(rem[4] == esc_char(sv[k])[4]);
                                    assert(rem[5] == esc_char(sv[k])[5]);
                                    let u0 = sv[k] as u32;
                                    assert(u0 < 32);
                                    assert(hex_char(0nat) == '0');
                                    assert(hex_char(((u0 / 16) as nat)) == s[pos + 4]);
                                    assert(hex_char(((u0 % 16) as nat)) == s[pos + 5]);
                                    assert(h1 == Some(0u32));
                                    assert(h2 == Some(0u32));
                                    assert(h3 == Some(u0 / 16));
                                    assert(h4 == Some(u0 % 16));
                                    assert(false);
                                }
                            }
                        }
                        return (None, pos);
                    },
                }
            } else {
                match decoded {
                    Some(d) => {
                        proof {
                            assert forall|sv: Seq<char>, rest: Seq<char>|
                                str_body_at(s, i as int, sv, rest) implies (d == sv[k] && esc_char(
                                sv[k],
                            ).len() == 2) by {
                                lemma_esc_char_shape(sv[k]);
                                if esc_char(sv[k]).len() == 6 {
                                    assert(esc_char(sv[k])[1] == 'u');
                                    assert(false);
                                }
                            }
                        }
                        crate::text::push_char(&mut out, d);
                        let newpos = pos + 2;
                        proof {
                            assert forall|sv: Seq<char>, rest: Seq<char>|
                                str_body_at(s, i as int, sv, rest) implies (out@.len() <= sv.len()
                                && sv.subrange(0, out@.len() as int) == out@ && newpos == i + esc(
                                out@,
                            ).len()) by {
                                assert(sv.subrange(0, k + 1) =~= sv.subrange(0, k).push(sv[k]));
                                lemma_esc_snoc(sv.subrange(0, k), sv[k]);
                                assert(esc_char(sv[k]).len() == 2);
                            }
                        }
                        pos = newpos;
                    },
                    None => {
                        proof {
                            assert forall|sv: Seq<char>, rest: Seq<char>| !str_body_at(
                                s,
                                i as int,
                                sv,
                                rest,
                            ) by {
                                if str_body_at(s, i as int, sv, rest) {
                                    lemma_esc_char_shape(sv[k]);
                                }
                            }
                        }
                        return (None, pos);
                    },
                }
            }
        } else {
            proof {
                assert forall|sv: Seq<char>, rest: Seq<char>|
                    str_body_at(s, i as int, sv, rest) implies (k < sv.len() && c == sv[k]
                    && esc_char(sv[k]).len() == 1) by {
                    let b = sv.subrange(k, sv.len() as int);
                    let rem = esc(b).push('"').add(rest);
                    assert(s[pos as int] == s.subrange(pos as int, s.len() as int)[0]);
                    if k == sv.len() {
                        assert(esc(b) =~= Seq::<char>::empty());
                        assert(rem[0] == '"');
                        assert(false);
                    }
                    lemma_esc_char_shape(sv[k]);
                    assert(esc(b)[0] == esc_char(sv[k])[0]);
                    assert(rem[0] == esc(b)[0]);
                    if esc_char(sv[k]).len() >= 2 {
                        assert(esc_char(sv[k])[0] == '\\');
                        assert(false);
                    }
                    assert(esc_char(sv[k])[0] == sv[k]);
                }
            }
            crate::text::push_char(&mut out, c);
            let newpos = pos + 1;
            proof {
                assert forall|sv: Seq<char>, rest: Seq<char>|
                    str_body_at(s, i as int, sv, rest) implies (out@.len() <= sv.len()
                    && sv.subrange(0, out@.len() as int) == out@ && newpos == i + esc(
                    out@,
                ).len()) by {
                    assert(sv.subrange(0, k + 1) =~= sv.subrange(0, k).push(sv[k]));
                    lemma_esc_snoc(sv.subrange(0, k), sv[k]);
                    assert(esc_char(sv[k]).len() == 1);
                }
            }
            pos = newpos;
        }
    }
}

/// The text at `p` reads as the elements and closing bracket of a non-empty
/// array (the opening bracket already consumed), followed by `rest`.
pub open spec fn arr_tail_at(s: Seq<char>, p: int, elems: Seq<JsonModel>, rest: Seq<char>) -> bool {
    &&& 0 <= p <= s.len()
    &&& (forall|q: int| 0 <= q < elems.len() ==> wf_json(#[trigger] elems[q]))
    &&& s.subrange(p, s.len() as int) == ser_items(elems).push(']').add(rest)
}

/// The text at `p` reads as the members and closing brace of an object (the
/// opening brace already consumed), followed by `rest`.
pub open spec fn obj_tail_at(
    s: Seq<char>,
    p: int,
    fs: Seq<(Seq<char>, JsonModel)>,
    rest: Seq<char>,
) -> bool {
    &&& 0 <= p <= s.len()
    &&& (forall|q: int| 0 <= q < fs.len() ==> wf_json(#[trigger] fs[q].1))
    &&& s.subrange(p, s.len() as int) == ser_fields(fs).push('}').add(rest)
}

/// What follows element `k` inside an array: a comma and the remaining
/// elements, or the closing bracket.
pub open spec fn arr_elem_tail(elems: Seq<JsonModel>, rest: Seq<char>, k: int) -> Seq<char> {
    if k == elems.len() - 1 {
        seq![']'].add(rest)
    } else {
        seq![','].add(ser_items(elems.subrange(k + 1, elems.len() as int))).push(']').add(rest)
    }
}

/// Element `k` of an array starts exactly at `pos`.
proof fn lemma_arr_elem_at(
    s: Seq<char>,
    p: int,
    elems: Seq<JsonModel>,
    rest: Seq<char>,
    k: int,
    pos: int,
)
    requires
        arr_tail_at(s, p, elems, rest),
        0 <= k < elems.len(),
        pos == p + ser_items(elems.subrange(0, k)).len() + if k > 0 {
            1int
        } else {
            0int
        },
    ensures
        val_at(s, pos, elems[k], arr_elem_tail(elems, rest, k)),
        arr_elem_tail(elems, rest, k).len() > 0,
        arr_elem_tail(elems, rest, k)[0] == (if k == elems.len() - 1 {
            ']'
        } else {
            ','
        }),
{
    let a = elems.subrange(0, k);
    let b = elems.subrange(k, elems.len() as int);
    assert(elems =~= a.add(b));
    lemma_ser_items_concat(a, b);
    let tail = arr_elem_tail(elems, rest, k);
    if k == elems.len() - 1 {
        assert(b =~= seq![elems[k]]);
        assert(ser_items(b) == ser(elems[k]));
    } else {
        let b2 = elems.subrange(k + 1, elems.len() as int);
        assert(b.subrange(1, b.len() as int) =~= b2);
        assert(b[0] == elems[k]);
        assert(ser_items(b) == ser(elems[k]).push(',').add(ser_items(b2)));
    }
    if k == 0 {
        assert(a =~= Seq::<JsonModel>::empty());
        assert(ser_items(elems) == ser_items(b));
        assert(b =~= elems);
        assert(ser_items(elems).push(']').add(rest) =~= ser(elems[k]).add(tail));
        assert(s.subrange(pos, s.len() as int) == ser(elems[k]).add(tail));
    } else {
        assert(ser_items(elems) == ser_items(a).push(',').add(ser_items(b)));
        assert(ser_items(elems).push(']').add(rest) =~= ser_items(a).push(',').add(
            ser_items(b).push(']').add(rest),
        ));
        lemma_tail_shift(s, p, ser_items(a).push(','), ser_items(b).push(']').add(rest));
        assert(ser_items(b).push(']').add(rest) =~= ser(elems[k]).add(tail));
    }
    assert(wf_json(elems[k]));
    if elems[k] is Num {
        assert(!is_num_char(tail[0]));
    }
}

/// What follows the value of member `k` inside an object.
pub open spec fn obj_field_tail(
    fs: Seq<(Seq<char>, JsonModel)>,
    rest: Seq<char>,
    k: int,
) -> Seq<char> {
    if k == fs.len() - 1 {
        seq!['}'].add(rest)
    } else {
        seq![','].add(ser_fields(fs.subrange(k + 1, fs.len() as int))).push('}').add(rest)
    }
}

/// Member `k` of an object starts exactly at `pos`: a quoted key, a colon,
/// then the value.
proof fn lemma_obj_field_at(
    s: Seq<char>,
    p: int,
    fs: Seq<(Seq<char>, JsonModel)>,
    rest: Seq<char>,
    k: int,
    pos: int,
)
    requires
        obj_tail_at(s, p, fs, rest),
        0 <= k < fs.len(),
        pos == p + ser_fields(fs.subrange(0, k)).len() + if k > 0 {
            1int
        } else {
            0int
        },
    ensures
        pos < s.len(),
        s[pos] == '"',
        str_body_at(
            s,
            pos + 1,
            fs[k].0,
            seq![':'].add(ser(fs[k].1)).add(obj_field_tail(fs, rest, k)),
        ),
        pos + 1 + esc(fs[k].0).len() + 1 < s.len(),
        s[pos + 1 + esc(fs[k].0).len() + 1] == ':',
        pos + 1 + esc(fs[k].0).len() + 1 + 1 + ser(fs[k].1).len() <= s.len(),
        val_at(
            s,
            pos + 1 + esc(fs[k].0).len() + 1 + 1,
            fs[k].1,
            obj_field_tail(fs, rest, k),
        ),
        obj_field_tail(fs, rest, k).len() > 0,
        obj_field_tail(fs, rest, k)[0] == (if k == fs.len() - 1 {
            '}'
        } else {
            ','
        }),
{
    let a = fs.subrange(0, k);
    let b = fs.subrange(k, fs.len() as int);
    assert(fs =~= a.add(b));
    lemma_ser_fields_concat(a, b);
    let tail = obj_field_tail(fs, rest, k);
    if k == fs.len() - 1 {
        assert(b =~= seq![fs[k]]);
        assert(ser_fields(b) == ser_field(fs[k]));
    } else {
        let b2 = fs.subrange(k + 1, fs.len() as int);
        assert(b.subrange(1, b.len() as int) =~= b2);
        assert(b[0] == fs[k]);
        assert(ser_fields(b) == ser_field(fs[k]).push(',').add(ser_fields(b2)));
    }
    // s from pos reads as ser_field(fs[k]) ++ tail
    if k == 0 {
        assert(a =~= Seq::<(Seq<char>, JsonModel)>::empty());
        assert(b =~= fs);
        assert(ser_fields(fs).push('}').add(rest) =~= ser_field(fs[k]).add(tail));
        assert(s.subrange(pos, s.len() as int) == ser_field(fs[k]).add(tail));
    } else {
        assert(ser_fields(fs) == ser_fields(a).push(',').add(ser_fields(b)));
        assert(ser_fields(fs).push('}').add(rest) =~= ser_fields(a).push(',').add(
            ser_fields(b).push('}').add(rest),
        ));
        lemma_tail_shift(s, p, ser_fields(a).push(','), ser_fields(b).push('}').add(rest));
        assert(ser_fields(b).push('}').add(rest) =~= ser_field(fs[k]).add(tail));
    }
    // peel the opening quote
    assert(ser_field(fs[k]).add(tail) =~= seq!['"'].add(
        esc(fs[k].0).push('"').add(seq![':'].add(ser(fs[k].1)).add(tail)),
    ));
    lemma_tail_shift(
        s,
        pos,
        seq!['"'],
        esc(fs[k].0).push('"').add(seq![':'].add(ser(fs[k].1)).add(tail)),
    );
    // peel the key body and closing quote
    lemma_tail_shift(
        s,
        pos + 1,
        esc(fs[k].0).push('"'),
        seq![':'].add(ser(fs[k].1)).add(tail),
    );
    // peel the colon
    assert(seq![':'].add(ser(fs[k].1)).add(tail) =~= seq![':'].add(ser(fs[k].1).add(tail)));
    lemma_tail_shift(
        s,
        pos + 1 + esc(fs[k].0).len() + 1,
        seq![':'],
        ser(fs[k].1).add(tail),
    );
    assert(s.subrange(pos + 1 + esc(fs[k].0).len() + 1 + 1, s.len() as int) == ser(
        fs[k].1,
    ).add(tail));
    assert(s.subrange(pos, s.len() as int)[0] == s[pos]);
    assert((seq!['"'].add(esc(fs[k].0).push('"').add(seq![':'].add(ser(fs[k].1)).add(tail))))[0]
        == '"');
    let cpos = pos + 1 + esc(fs[k].0).len() + 1;
    assert(s.subrange(cpos, s.len() as int)[0] == s[cpos]);
    assert((seq![':'].add(ser(fs[k].1).add(tail)))[0] == ':');
    assert(ser(fs[k].1).add(tail).len() > 0);
    assert(wf_json(fs[k].1));
    if fs[k].1 is Num {
        assert(!is_num_char(tail[0]));
    }
}

/// The first character after an array's opening bracket.
proof fn lemma_arr_head_char(s: Seq<char>, p: int, es: Seq<JsonModel>, rest: Seq<char>)
    requires
        arr_tail_at(s, p, es, rest),
    ensures
        p < s.len(),
        es.len() == 0 ==> s[p] == ']',
        es.len() > 0 ==> s[p] == ser(es[0])[0] && !is_space(s[p]) && s[p] != ']' && s[p] != ',',
{
    let body = ser_items(es).push(']').add(rest);
    assert(body.len() > 0);
    assert(s.subrange(p, s.len() as int).len() == s.len() - p);
    assert(s[p + 0] == s.subrange(p, s.len() as int)[0]);
    if es.len() == 0 {
        assert(ser_items(es) == Seq::<char>::empty());
        assert(body[0] == ']');
    } else {
        lemma_ser_head(es[0]);
        if es.len() == 1 {
            assert(ser_items(es) == ser(es[0]));
        } else {
            assert(ser_items(es) == ser(es[0]).push(',').add(
                ser_items(es.subrange(1, es.len() as int)),
            ));
        }
        assert(ser_items(es)[0] == ser(es[0])[0]);
        assert(body[0] == ser_items(es)[0]);
        match es[0] {
            JsonModel::Null => {},
            JsonModel::Bool(b) => {},
            JsonModel::Num(t) => {},
            JsonModel::Str(x) => {},
            JsonModel::Arr(x) => {},
            JsonModel::Obj(x) => {},
        }
    }
}

/// The first character after an object's opening brace.
proof fn lemma_obj_head_char(s: Seq<char>, p: int, fs: Seq<(Seq<char>, JsonModel)>, rest: Seq<char>)
    requires
        obj_tail_at(s, p, fs, rest),
    ensures
        p < s.len(),
        fs.len() == 0 ==> s[p] == '}',
        fs.len() > 0 ==> s[p] == '"',
{
    let body = ser_fields(fs).push('}').add(rest);
    assert(body.len() > 0);
    assert(s[p + 0] == s.subrange(p, s.len() as int)[0]);
    if fs.len() == 0 {
        assert(ser_fields(fs) == Seq::<char>::empty());
        assert(body[0] == '}');
    } else {
        if fs.len() == 1 {
            assert(ser_fields(fs) == ser_field(fs[0]));
        } else {
            assert(ser_fields(fs) == ser_field(fs[0]).push(',').add(
                ser_fields(fs.subrange(1, fs.len() as int)),
            ));
        }
        assert(ser_field(fs[0])[0] == '"');
        assert(ser_fields(fs)[0] == '"');
        assert(body[0] == '"');
    }
}

/// Parse one JSON value starting at `i`, skipping leading whitespace first.
/// Every value handed back is well-formed, so its canonical text parses
/// back to it. The last `ensures` clause is the round-trip guarantee:
/// whenever the input from `i` reads as the canonical text of a well-formed
/// value, that exact value comes back, with the position just past it.
#[verifier::loop_isolation(false)]
#[verifier::rlimit(100)]
pub fn parse_value(cs: &Vec<char>, i: usize) -> (r: (Option<Json>, usize))
    requires
        i <= cs@.len(),
    ensures
        i <= r.1 <= cs@.len(),
        r.0 is Some ==> r.1 > i,
        r.0 matches Some(v) ==> wf_json(v@),
        forall|m: JsonModel, rest: Seq<char>|
            val_at(cs@, i as int, m, rest) ==> (r.0 matches Some(v) && v@ == m && r.1 == i + ser(
                m,
            ).len()),
    decreases cs@.len() - i,
{
    let ghost s = cs@;
    let j = skip_ws(cs, i);
    proof {
        assert forall|m: JsonModel, rest: Seq<char>| val_at(s, i as int, m, rest) implies (j == i
            && i < s.len() && s[i as int] == ser(m)[0]) by {
            lemma_ser_head(m);
            lemma_tail_shift(s, i as int, ser(m), rest);
            assert(s[i as int + 0] == ser(m)[0]);
            if j != i {
                assert(is_space(s[i as int]));
            }
        }
    }
    if j >= cs.len() {
        return (None, j);
    }
    let c = cs[j];
    if c == 'n' {
        if cs.len() - j >= 4 && cs[j + 1] == 'u' && cs[j + 2] == 'l' && cs[j + 3] == 'l' {
            proof {
                assert forall|m: JsonModel, rest: Seq<char>| val_at(s, i as int, m, rest) implies (
                m is Null && j + 4 == i + ser(m).len()) by {
                    lemma_ser_head(m);
                }
            }
            return (Some(Json::Null), j + 4);
        } else {
            proof {
                assert forall|m: JsonModel, rest: Seq<char>| !val_at(s, i as int, m, rest) by {
                    if val_at(s, i as int, m, rest) {
                        lemma_ser_head(m);
                        assert(m is Null);
                        lemma_tail_shift(s, i as int, ser(m), rest);
                        assert(s[i as int + 1] == 'u');
                        assert(s[i as int + 2] == 'l');
                        assert(s[i as int + 3] == 'l');
                        assert(i + 4 <= s.len());
                    }
                }
            }
            return (None, j);
        }
    } else if c == 't' {
        if cs.len() - j >= 4 && cs[j + 1] == 'r' && cs[j + 2] == 'u' && cs[j + 3] == 'e' {
            proof {
                assert forall|m: JsonModel, rest: Seq<char>| val_at(s, i as int, m, rest) implies (
                m == JsonModel::Bool(true) && j + 4 == i + ser(m).len()) by {
                    lemma_ser_head(m);
                }
            }
            return (Some(Json::Bool(true)), j + 4);
        } else {
            proof {
                assert forall|m: JsonModel, rest: Seq<char>| !val_at(s, i as int, m, rest) by {
                    if val_at(s, i as int, m, rest) {
                        lemma_ser_head(m);
                        assert(m == JsonModel::Bool(true));
                        lemma_tail_shift(s, i as int, ser(m), rest);
                        assert(s[i as int + 1] == 'r');
                        assert(s[i as int + 2] == 'u');
                        assert(s[i as int + 3] == 'e');
                        assert(i + 4 <= s.len());
                    }
                }
            }
            return (None, j);
        }
    } else if c == 'f' {
        if cs.len() - j >= 5 && cs[j + 1] == 'a' && cs[j + 2] == 'l' && cs[j + 3] == 's' && cs[j
            + 4] == 'e' {
            proof {
                assert forall|m: JsonModel, rest: Seq<char>| val_at(s, i as int, m, rest) implies (
                m == JsonModel::Bool(false) && j + 5 == i + ser(m).len()) by {
                    lemma_ser_head(m);
                }
            }
            return (Some(Json::Bool(false)), j + 5);
        } else {
            proof {
                assert forall|m: JsonModel, rest: Seq<char>| !val_at(s, i as int, m, rest) by {
                    if val_at(s, i as int, m, rest) {
                        lemma_ser_head(m);
                        assert(m == JsonModel::Bool(false));
                        lemma_tail_shift(s, i as int, ser(m), rest);
                        assert(s[i as int + 1] == 'a');
                        assert(s[i as int + 2] == 'l');
                        assert(s[i as int + 3] == 's');
                        assert(s[i as int + 4] == 'e');
                        assert(i + 5 <= s.len());
                    }
                }
            }
            return (None, j);
        }
    } else if c == '"' {
        let (body, end) = parse_string_body(cs, j + 1);
        proof {
            assert forall|m: JsonModel, rest: Seq<char>| val_at(s, i as int, m, rest) implies (body
                matches Some(st) && m matches JsonModel::Str(sv) && st@ == sv && end == i + ser(
                m,
            ).len()) by {
                lemma_ser_head(m);
                assert(m is Str);
                let sv = m->Str_0;
                assert(ser(m).add(rest) =~= seq!['"'].add(esc(sv).push('"').add(rest)));
                lemma_tail_shift(s, i as int, seq!['"'], esc(sv).push('"').add(rest));
                assert(str_body_at(s, i as int + 1, sv, rest));
            }
        }
        match body {
            Some(st) => (Some(Json::Str(st)), end),
            None => (None, end),
        }
    } else if ('0' <= c && c <= '9') || c == '-' {
        let mut e = j + 1;
        proof {
            assert forall|m: JsonModel, rest: Seq<char>| val_at(s, i as int, m, rest) implies (m
                is Num && e <= i + ser(m).len()) by {
                lemma_ser_head(m);
            }
        }
        while e < cs.len() && is_num_char_exec(cs[e])
            invariant
                j < e <= s.len(),
                forall|q: int| j <= q < e ==> is_num_char(s[q]),
                forall|m: JsonModel, rest: Seq<char>|
                    val_at(s, i as int, m, rest) ==> e <= i + ser(m).len(),
            decreases s.len() - e,
        {
            proof {
                assert forall|m: JsonModel, rest: Seq<char>| val_at(s, i as int, m, rest) implies e
                    + 1 <= i + ser(m).len() by {
                    lemma_ser_head(m);
                    let t = m->Num_0;
                    lemma_tail_shift(s, i as int, ser(m), rest);
                    if e == i + t.len() {
                        assert(s.len() == i + t.len() + rest.len());
                        assert(rest.len() > 0);
                        assert(s[i + t.len() + 0] == rest[0]);
                        assert(!is_num_char(rest[0]));
                    }
                }
            }
            e = e + 1;
        }
        let text = string_from_range(cs, j, e);
        proof {
            assert forall|m: JsonModel, rest: Seq<char>| val_at(s, i as int, m, rest) implies (
            text@ == m->Num_0 && e == i + ser(m).len()) by {
                lemma_ser_head(m);
                let t = m->Num_0;
                lemma_tail_shift(s, i as int, ser(m), rest);
                if e < i + t.len() {
                    assert(s[i + (e - i)] == t[e - i]);
                    assert(is_num_char(t[e - i]));
                    assert(e < s.len());
                    assert(false);
                }
                assert(e == i + t.len());
                assert forall|q: int| 0 <= q < t.len() implies s.subrange(j as int, e as int)[q]
                    == t[q] by {
                    assert(s[i + q] == t[q]);
                }
                assert(s.subrange(j as int, e as int) =~= t);
            }
        }
        proof {
            assert forall|q: int| 0 <= q < text@.len() implies is_num_char(#[trigger] text@[q]) by {
                assert(text@[q] == s[j + q]);
            }
            assert(text@[0] == s[j as int]);
            assert(num_text_ok(text@));
        }
        return (Some(Json::Num(text)), e);
    } else if c == '[' {
        proof {
            assert forall|m: JsonModel, rest: Seq<char>| val_at(s, i as int, m, rest) implies (m
                is Arr && arr_tail_at(s, j + 1, m->Arr_0, rest)) by {
                lemma_ser_head(m);
                assert(m is Arr);
                let es = m->Arr_0;
                assert(ser(m).add(rest) =~= seq!['['].add(ser_items(es).push(']').add(rest)));
                lemma_tail_shift(s, i as int, seq!['['], ser_items(es).push(']').add(rest));
            }
        }
        let mut items: Vec<Json> = Vec::new();
        let p0 = skip_ws(cs, j + 1);
        if p0 < cs.len() && cs[p0] == ']' {
            let out = Json::Arr(items);
            proof {
                assert(wf_json(out@));
                assert forall|m: JsonModel, rest: Seq<char>| val_at(s, i as int, m, rest) implies (
                out@ == m && p0 + 1 == i + ser(m).len()) by {
                    let es = m->Arr_0;
                    lemma_arr_head_char(s, j + 1, es, rest);
                    if es.len() > 0 {
                        if p0 != j + 1 {
                            assert(is_space(s[j + 1]));
                        }
                        assert(false);
                    }
                    if p0 != j + 1 {
                        assert(is_space(s[j + 1]));
                        assert(false);
                    }
                    assert(out@->Arr_0 =~= es);
                }
            }
            return (Some(out), p0 + 1);
        }
        proof {
            assert forall|es: Seq<JsonModel>, rest: Seq<char>| #[trigger]
                arr_tail_at(s, j + 1, es, rest) implies (es.len() > 0 && items@.len() < es.len()
                && p0 == j + 1 + ser_items(es.subrange(0, items@.len() as int)).len() + 0) by {
                lemma_arr_head_char(s, j + 1, es, rest);
                if es.len() == 0 {
                    if p0 != j + 1 {
                        assert(is_space(s[j + 1]));
                    }
                    assert(false);
                }
                if p0 != j + 1 {
                    assert(is_space(s[j + 1]));
                    assert(false);
                }
                assert(es.subrange(0, 0) =~= Seq::<JsonModel>::empty());
                assert(ser_items(es.subrange(0, 0)) == Seq::<char>::empty());
            }
        }
        let mut pos = p0;
        loop
            invariant
                j + 1 <= pos <= s.len(),
                j + 1 > i,
                s == cs@,
                forall|q: int| 0 <= q < items@.len() ==> wf_json(json_view(#[trigger] items@[q])),
                forall|es: Seq<JsonModel>, rest: Seq<char>|
                    #[trigger] arr_tail_at(s, j + 1, es, rest) ==> (items@.len() < es.len() && (forall|q: int|
                        0 <= q < items@.len() ==> json_view(#[trigger] items@[q]) == es[q]) && pos
                        == j + 1 + ser_items(es.subrange(0, items@.len() as int)).len() + (
                    if items@.len() > 0 {
                        1int
                    } else {
                        0int
                    })),
            decreases s.len() - pos,
        {
            let ghost k = items@.len() as int;
            proof {
                assert forall|es: Seq<JsonModel>, rest: Seq<char>| #[trigger]
                    arr_tail_at(s, j + 1, es, rest) implies val_at(
                    s,
                    pos as int,
                    es[k],
                    arr_elem_tail(es, rest, k),
                ) by {
                    lemma_arr_elem_at(s, j + 1, es, rest, k, pos as int);
                }
            }
            let (v, pos2) = parse_value(cs, pos);
            match v {
                Some(vv) => {
                    let p3 = skip_ws(cs, pos2);
                    proof {
                        assert forall|es: Seq<JsonModel>, rest: Seq<char>| #[trigger]
                            arr_tail_at(s, j + 1, es, rest) implies (p3 == pos2 && p3 < s.len()
                            && s[p3 as int] == arr_elem_tail(es, rest, k)[0] && json_view(vv)
                            == es[k] && pos2 == pos + ser(es[k]).len()) by {
                            lemma_arr_elem_at(s, j + 1, es, rest, k, pos as int);
                            let tail = arr_elem_tail(es, rest, k);
                            lemma_tail_shift(s, pos as int, ser(es[k]), tail);
                            assert(s[pos2 as int + 0] == tail[0]);
                            assert(tail[0] == ']' || tail[0] == ',');
                            if p3 != pos2 {
                                assert(is_space(s[pos2 as int]));
                                assert(false);
                            }
                        }
                    }
                    if p3 < cs.len() && cs[p3] == ',' {
                        items.push(vv);
                        proof {
                            assert forall|es: Seq<JsonModel>, rest: Seq<char>| #[trigger]
                                arr_tail_at(s, j + 1, es, rest) implies (items@.len() < es.len()
                                && (forall|q: int|
                                0 <= q < items@.len() ==> json_view(#[trigger] items@[q])
                                    == es[q]) && p3 + 1 == j + 1 + ser_items(
                                es.subrange(0, items@.len() as int),
                            ).len() + 1) by {
                                if k == es.len() - 1 {
                                    assert(arr_elem_tail(es, rest, k)[0] == ']');
                                    assert(false);
                                }
                                assert(es.subrange(0, k + 1) =~= es.subrange(0, k).push(es[k]));
                                lemma_ser_items_snoc(es.subrange(0, k), es[k]);
                            }
                        }
                        pos = p3 + 1;
                    } else if p3 < cs.len() && cs[p3] == ']' {
                        items.push(vv);
                        let out = Json::Arr(items);
                        proof {
                            assert forall|q: int|
                                0 <= q < out@->Arr_0.len() implies wf_json(
                                #[trigger] out@->Arr_0[q],
                            ) by {
                                assert(out@->Arr_0[q] == json_view(items@[q]));
                            }
                            assert(wf_json(out@));
                            assert forall|es: Seq<JsonModel>, rest: Seq<char>| #[trigger]
                                arr_tail_at(s, j + 1, es, rest) implies (out@ == JsonModel::Arr(es)
                                && p3 + 1 == j + 2 + ser_items(es).len()) by {
                                if k != es.len() - 1 {
                                    assert(arr_elem_tail(es, rest, k)[0] == ',');
                                    assert(false);
                                }
                                assert(es.subrange(0, k + 1) =~= es);
                                assert(es.subrange(0, k + 1) =~= es.subrange(0, k).push(es[k]));
                                lemma_ser_items_snoc(es.subrange(0, k), es[k]);
                                assert(out@->Arr_0 =~= es);
                            }
                            assert forall|m: JsonModel, rest: Seq<char>|
                                val_at(s, i as int, m, rest) implies (out@ == m && p3 + 1 == i
                                + ser(m).len()) by {
                                assert(arr_tail_at(s, j + 1, m->Arr_0, rest));
                                assert(ser(m).len() == 1 + ser_items(m->Arr_0).len() + 1);
                            }
                        }
                        return (Some(out), p3 + 1);
                    } else {
                        proof {
                            assert forall|m: JsonModel, rest: Seq<char>| !val_at(
                                s,
                                i as int,
                                m,
                                rest,
                            ) by {
                                if val_at(s, i as int, m, rest) {
                                    assert(arr_tail_at(s, j + 1, m->Arr_0, rest));
                                    assert(s[p3 as int] == arr_elem_tail(m->Arr_0, rest, k)[0]);
                                }
                            }
                        }
                        return (None, p3);
                    }
                },
                None => {
                    proof {
                        assert forall|m: JsonModel, rest: Seq<char>| !val_at(
                            s,
                            i as int,
                            m,
                            rest,
                        ) by {
                            if val_at(s, i as int, m, rest) {
                                assert(arr_tail_at(s, j + 1, m->Arr_0, rest));
                                assert(val_at(
                                    s,
                                    pos as int,
                                    m->Arr_0[k],
                                    arr_elem_tail(m->Arr_0, rest, k),
                                ));
                            }
                        }
                    }
                    return (None, pos2);
                },
            }
        }
    } else if c == '{' {
        proof {
            assert forall|m: JsonModel, rest: Seq<char>| val_at(s, i as int, m, rest) implies (m
                is Obj && obj_tail_at(s, j + 1, m->Obj_0, rest)) by {
                lemma_ser_head(m);
                assert(m is Obj);
                let fs = m->Obj_0;
                assert(ser(m).add(rest) =~= seq!['{'].add(ser_fields(fs).push('}').add(rest)));
                lemma_tail_shift(s, i as int, seq!['{'], ser_fields(fs).push('}').add(rest));
            }
        }
        let mut fieldsv: Vec<(String, Json)> = Vec::new();
        let p0 = skip_ws(cs, j + 1);
        if p0 < cs.len() && cs[p0] == '}' {
            let out = Json::Obj(fieldsv);
            proof {
                assert(wf_json(out@));
                assert forall|m: JsonModel, rest: Seq<char>| val_at(s, i as int, m, rest) implies (
                out@ == m && p0 + 1 == i + ser(m).len()) by {
                    let fs = m->Obj_0;
                    lemma_obj_head_char(s, j + 1, fs, rest);
                    if fs.len() > 0 {
                        if p0 != j + 1 {
                            assert(is_space(s[j + 1]));
                        }
                        assert(false);
                    }
                    if p0 != j + 1 {
                        assert(is_space(s[j + 1]));
                        assert(false);
                    }
                    assert(out@->Obj_0 =~= fs);
                }
            }
            return (Some(out), p0 + 1);
        }
        proof {
            assert forall|fs: Seq<(Seq<char>, JsonModel)>, rest: Seq<char>| #[trigger]
                obj_tail_at(s, j + 1, fs, rest) implies (fs.len() > 0 && fieldsv@.len() < fs.len()
                && p0 == j + 1 + ser_fields(fs.subrange(0, fieldsv@.len() as int)).len() + 0) by {
                lemma_obj_head_char(s, j + 1, fs, rest);
                if fs.len() == 0 {
                    if p0 != j + 1 {
                        assert(is_space(s[j + 1]));
                    }
                    assert(false);
                }
                if p0 != j + 1 {
                    assert(is_space(s[j + 1]));
                    assert(false);
                }
                assert(fs.subrange(0, 0) =~= Seq::<(Seq<char>, JsonModel)>::empty());
                assert(ser_fields(fs.subrange(0, 0)) == Seq::<char>::empty());
            }
        }
        let mut pos = p0;
        loop
            invariant
                j + 1 <= pos <= s.len(),
                j + 1 > i,
                s == cs@,
                forall|q: int|
                    0 <= q < fieldsv@.len() ==> wf_json(json_view((#[trigger] fieldsv@[q]).1)),
                forall|fs: Seq<(Seq<char>, JsonModel)>, rest: Seq<char>|
                    #[trigger] obj_tail_at(s, j + 1, fs, rest) ==> (fieldsv@.len() < fs.len() && (forall|
                        q: int,
                    |
                        0 <= q < fieldsv@.len() ==> ((#[trigger] fieldsv@[q]).0@ == fs[q].0
                            && json_view(fieldsv@[q].1) == fs[q].1)) && pos == j + 1 + ser_fields(
                        fs.subrange(0, fieldsv@.len() as int),
                    ).len() + (if fieldsv@.len() > 0 {
                        1int
                    } else {
                        0int
                    })),
            decreases s.len() - pos,
        {
            let ghost k = fieldsv@.len() as int;
            let pk = skip_ws(cs, pos);
            proof {
                assert forall|fs: Seq<(Seq<char>, JsonModel)>, rest: Seq<char>| #[trigger]
                    obj_tail_at(s, j + 1, fs, rest) implies (pk == pos && pk < s.len() && s[pk as int]
                    == '"' && str_body_at(
                    s,
                    pos as int + 1,
                    fs[k].0,
                    seq![':'].add(ser(fs[k].1)).add(obj_field_tail(fs, rest, k)),
                )) by {
                    lemma_obj_field_at(s, j + 1, fs, rest, k, pos as int);
                    if pk != pos {
                        assert(is_space(s[pos as int]));
                        assert(false);
                    }
                }
            }
            if pk >= cs.len() || !char_eq_quote(cs[pk]) {
                proof {
                    assert forall|m: JsonModel, rest: Seq<char>| !val_at(s, i as int, m, rest) by {
                        if val_at(s, i as int, m, rest) {
                            assert(obj_tail_at(s, j + 1, m->Obj_0, rest));
                            assert(s[pk as int] == '"');
                        }
                    }
                }
                return (None, pk);
            }
            let (body, kend) = parse_string_body(cs, pk + 1);
            match body {
                Some(key) => {
                    let pc = skip_ws(cs, kend);
                    proof {
                        assert forall|fs: Seq<(Seq<char>, JsonModel)>, rest: Seq<char>| #[trigger]
                            obj_tail_at(s, j + 1, fs, rest) implies (key@ == fs[k].0 && pc == kend
                            && pc < s.len() && s[pc as int] == ':' && val_at(
                            s,
                            pc + 1,
                            fs[k].1,
                            obj_field_tail(fs, rest, k),
                        )) by {
                            lemma_obj_field_at(s, j + 1, fs, rest, k, pos as int);
                            let fk = fs[k];
                            assert(kend == pos + 1 + esc(fk.0).len() + 1);
                            if pc != kend {
                                assert(is_space(s[kend as int]));
                                assert(false);
                            }
                        }
                    }
                    if pc >= cs.len() || !char_eq_colon(cs[pc]) {
                        proof {
                            assert forall|m: JsonModel, rest: Seq<char>| !val_at(
                                s,
                                i as int,
                                m,
                                rest,
                            ) by {
                                if val_at(s, i as int, m, rest) {
                                    assert(obj_tail_at(s, j + 1, m->Obj_0, rest));
                                    assert(s[pc as int] == ':');
                                }
                            }
                        }
                        return (None, pc);
                    }
                    let (v, vend) = parse_value(cs, pc + 1);
                    match v {
                        Some(vv) => {
                            let pn = skip_ws(cs, vend);
                            proof {
                                assert forall|fs: Seq<(Seq<char>, JsonModel)>, rest: Seq<char>|
                                    #[trigger] obj_tail_at(s, j + 1, fs, rest) implies (pn == vend
                                    && pn < s.len() && s[pn as int] == obj_field_tail(
                                    fs,
                                    rest,
                                    k,
                                )[0] && json_view(vv) == fs[k].1 && vend == pc + 1 + ser(
                                    fs[k].1,
                                ).len()) by {
                                    lemma_obj_field_at(s, j + 1, fs, rest, k, pos as int);
                                    let tail = obj_field_tail(fs, rest, k);
                                    lemma_tail_shift(s, pc + 1, ser(fs[k].1), tail);
                                    assert(s[vend as int + 0] == tail[0]);
                                    assert(tail[0] == '}' || tail[0] == ',');
                                    if pn != vend {
                                        assert(is_space(s[vend as int]));
                                        assert(false);
                                    }
                                }
                            }
                            if pn < cs.len() && cs[pn] == ',' {
                                fieldsv.push((key, vv));
                                proof {
                                    assert forall|fs: Seq<(Seq<char>, JsonModel)>, rest: Seq<char>| #[trigger]
                                        obj_tail_at(s, j + 1, fs, rest) implies (fieldsv@.len()
                                        < fs.len() && (forall|q: int|
                                        0 <= q < fieldsv@.len() ==> ((#[trigger] fieldsv@[q]).0@
                                            == fs[q].0 && json_view(fieldsv@[q].1) == fs[q].1))
                                        && pn + 1 == j + 1 + ser_fields(
                                        fs.subrange(0, fieldsv@.len() as int),
                                    ).len() + 1) by {
                                        if k == fs.len() - 1 {
                                            assert(obj_field_tail(fs, rest, k)[0] == '}');
                                            assert(false);
                                        }
                                        assert(fs.subrange(0, k + 1) =~= fs.subrange(0, k).push(
                                            fs[k],
                                        ));
                                        lemma_ser_fields_snoc(fs.subrange(0, k), fs[k]);
                                    }
                                }
                                pos = pn + 1;
                            } else if pn < cs.len() && cs[pn] == '}' {
                                fieldsv.push((key, vv));
                                let out = Json::Obj(fieldsv);
                                proof {
                                    assert forall|q: int|
                                        0 <= q < out@->Obj_0.len() implies wf_json(
                                        (#[trigger] out@->Obj_0[q]).1,
                                    ) by {
                                        assert(out@->Obj_0[q].1 == json_view(fieldsv@[q].1));
                                    }
                                    assert(wf_json(out@));
                                    assert forall|fs: Seq<(Seq<char>, JsonModel)>, rest: Seq<char>|
                                        #[trigger] obj_tail_at(s, j + 1, fs, rest) implies (out@
                                        == JsonModel::Obj(fs) && pn + 1 == j + 2 + ser_fields(
                                        fs,
                                    ).len()) by {
                                        if k != fs.len() - 1 {
                                            assert(obj_field_tail(fs, rest, k)[0] == ',');
                                            assert(false);
                                        }
                                        assert(fs.subrange(0, k + 1) =~= fs);
                                        assert(fs.subrange(0, k + 1) =~= fs.subrange(0, k).push(
                                            fs[k],
                                        ));
                                        lemma_ser_fields_snoc(fs.subrange(0, k), fs[k]);
                                        assert(out@->Obj_0 =~= fs);
                                    }
                                    assert forall|m: JsonModel, rest: Seq<char>|
                                        val_at(s, i as int, m, rest) implies (out@ == m && pn + 1
                                        == i + ser(m).len()) by {
                                        assert(obj_tail_at(s, j + 1, m->Obj_0, rest));
                                        assert(ser(m).len() == 1 + ser_fields(m->Obj_0).len() + 1);
                                    }
                                }
                                return (Some(out), pn + 1);
                            } else {
                                proof {
                                    assert forall|m: JsonModel, rest: Seq<char>| !val_at(
                                        s,
                                        i as int,
                                        m,
                                        rest,
                                    ) by {
                                        if val_at(s, i as int, m, rest) {
                                            assert(obj_tail_at(s, j + 1, m->Obj_0, rest));
                                            assert(s[pn as int] == obj_field_tail(
                                                m->Obj_0,
                                                rest,
                                                k,
                                            )[0]);
                                        }
                                    }
                                }
                                return (None, pn);
                            }
                        },
                        None => {
                            proof {
                                assert forall|m: JsonModel, rest: Seq<char>| !val_at(
                                    s,
                                    i as int,
                                    m,
                                    rest,
                                ) by {
                                    if val_at(s, i as int, m, rest) {
                                        assert(obj_tail_at(s, j + 1, m->Obj_0, rest));
                                        assert(val_at(
                                            s,
                                            pc + 1,
                                            m->Obj_0[k].1,
                                            obj_field_tail(m->Obj_0, rest, k),
                                        ));
                                    }
                                }
                            }
                            return (None, vend);
                        },
                    }
                },
                None => {
                    proof {
                        assert forall|m: JsonModel, rest: Seq<char>| !val_at(
                            s,
                            i as int,
                            m,
                            rest,
                        ) by {
                            if val_at(s, i as int, m, rest) {
                                assert(obj_tail_at(s, j + 1, m->Obj_0, rest));
                                assert(str_body_at(
                                    s,
                                    pos as int + 1,
                                    m->Obj_0[k].0,
                                    seq![':'].add(ser(m->Obj_0[k].1)).add(
                                        obj_field_tail(m->Obj_0, rest, k),
                                    ),
                                ));
                            }
                        }
                    }
                    return (None, kend);
                },
            }
        }
    } else {
        proof {
            assert forall|m: JsonModel, rest: Seq<char>| !val_at(s, i as int, m, rest) by {
                if val_at(s, i as int, m, rest) {
                    lemma_ser_head(m);
                    match m {
                        JsonModel::Null => {},
                        JsonModel::Bool(b) => {},
                        JsonModel::Num(t) => {},
                        JsonModel::Str(x) => {},
                        JsonModel::Arr(x) => {},
                        JsonModel::Obj(x) => {},
                    }
                }
            }
        }
        (None, j)
    }
}

fn char_eq_quote(c: char) -> (r: bool)
    ensures
        r == (c == '"'),
{
    c == '"'
}

fn char_eq_colon(c: char) -> (r: bool)
    ensures
        r == (c == ':'),
{
    c == ':'
}

/// A value's view has the same variant as the value.
pub proof fn lemma_view_variant(j: Json)
    ensures
        (j@ is Null) == (j is Null),
        (j@ is Bool) == (j is Bool),
        (j@ is Num) == (j is Num),
        (j@ is Str) == (j is Str),
        (j@ is Arr) == (j is Arr),
        (j@ is Obj) == (j is Obj),
{
    match j {
        Json::Null => {},
        Json::Bool(b) => {},
        Json::Num(t) => {},
        Json::Str(x) => {},
        Json::Arr(x) => {},
        Json::Obj(x) => {},
    }
}

/// The first value stored under `key`, if any.
pub open spec fn obj_get(fs: Seq<(Seq<char>, JsonModel)>, key: Seq<char>) -> Option<JsonModel>
    decreases fs.len(),
{
    if fs.len() == 0 {
        None
    } else if fs[0].0 == key {
        Some(fs[0].1)
    } else {
        obj_get(fs.subrange(1, fs.len() as int), key)
    }
}

/// Every value stored in a well-formed object is itself well-formed.
pub proof fn lemma_obj_get_wf(fs: Seq<(Seq<char>, JsonModel)>, key: Seq<char>)
    requires
        forall|q: int| 0 <= q < fs.len() ==> wf_json((#[trigger] fs[q]).1),
    ensures
        obj_get(fs, key) matches Some(x) ==> wf_json(x),
    decreases fs.len(),
{
    if fs.len() > 0 && fs[0].0 != key {
        let t = fs.subrange(1, fs.len() as int);
        assert(forall|q: int| 0 <= q < t.len() ==> #[trigger] t[q] == fs[q + 1]);
        lemma_obj_get_wf(t, key);
    }
}

/// Look a key up in an object; `None` on any other kind of value.
pub fn obj_get_json<'a>(j: &'a Json, key: &str) -> (r: Option<&'a Json>)
    ensures
        match r {
            Some(v) => j@ matches JsonModel::Obj(fs) && obj_get(fs, key@) == Some(v@),
            None => j@ matches JsonModel::Obj(fs) ==> obj_get(fs, key@) is None,
        },
{
    match j {
        Json::Obj(fields) => {
            let ghost fs = j@->Obj_0;
            let mut i: usize = 0;
            proof {
                assert(fs.subrange(0, fs.len() as int) =~= fs);
            }
            while i < fields.len()
                invariant
                    0 <= i <= fields@.len(),
                    fs.len() == fields@.len(),
                    j@ matches JsonModel::Obj(fs2) && fs2 == fs,
                    forall|q: int|
                        0 <= q < fs.len() ==> #[trigger] fs[q] == (
                        fields@[q].0@,
                        json_view(fields@[q].1),
                        ),
                    obj_get(fs, key@) == obj_get(fs.subrange(i as int, fs.len() as int), key@),
                decreases fields@.len() - i,
            {
                if crate::text::str_eq(fields[i].0.as_str(), key) {
                    proof {
                        assert(fs.subrange(i as int, fs.len() as int)[0] == fs[i as int]);
                    }
                    return Some(&fields[i].1);
                }
                proof {
                    let t = fs.subrange(i as int, fs.len() as int);
                    assert(t[0] == fs[i as int]);
                    assert(t.subrange(1, t.len() as int) =~= fs.subrange(
                        i + 1,
                        fs.len() as int,
                    ));
                }
                i = i + 1;
            }
            proof {
                assert(fs.subrange(i as int, fs.len() as int).len() == 0);
            }
            None
        },
        _ => None,
    }
}

/// Parse a whole string as one JSON value; trailing whitespace is allowed,
/// anything else after the value is an error. Canonical text of a
/// well-formed value always parses back to it, and every parsed value is
/// well-formed, so re-serializing it reproduces what it means.
pub fn parse_json(text: &str) -> (r: Option<Json>)
    ensures
        r matches Some(v) ==> wf_json(v@),
        forall|m: JsonModel|
            wf_json(m) && text@ == ser(m) ==> (r matches Some(v) && v@ == m),
{
    let cs = crate::text::chars_of(text);
    proof {
        assert forall|m: JsonModel| wf_json(m) && text@ == ser(m) implies val_at(
            cs@,
            0,
            m,
            Seq::<char>::empty(),
        ) by {
            assert(cs@.subrange(0, cs@.len() as int) =~= cs@);
            assert(ser(m).add(Seq::<char>::empty()) =~= ser(m));
        }
    }
    let (o, end) = parse_value(&cs, 0);
    match o {
        Some(v) => {
            let tail = skip_ws(&cs, end);
            if tail == cs.len() {
                Some(v)
            } else {
                proof {
                    assert forall|m: JsonModel| !(wf_json(m) && text@ == ser(m)) by {
                        if wf_json(m) && text@ == ser(m) {
                            assert(val_at(cs@, 0, m, Seq::<char>::empty()));
                        }
                    }
                }
                None
            }
        },
        None => {
            proof {
                assert forall|m: JsonModel| !(wf_json(m) && text@ == ser(m)) by {
                    if wf_json(m) && text@ == ser(m) {
                        assert(val_at(cs@, 0, m, Seq::<char>::empty()));
                    }
                }
            }
            None
        },
    }
}

} // verus!
