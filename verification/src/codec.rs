//! The wire codec: one structured value per line of UTF-8 text.
//!
//! A message is a single structured value written in the usual brace/bracket
//! notation, with no embedded newline (newlines inside strings are escaped),
//! so that a newline terminates exactly one message. `ser_value` is the
//! mathematical serialization; `encode_value` produces exactly those bytes;
//! `parse_value` reads a value back and is proved to invert `ser_value` on
//! every well-formed value. The parser reads more than the serializer writes:
//! insignificant whitespace between tokens and `\uXXXX` string escapes are
//! accepted, leniency the contracts do not pin.

use vstd::prelude::*;

use crate::value::{
    deep_view_pairs, deep_view_seq, lemma_deep_view_pairs_index, lemma_deep_view_seq_index,
    JsonValue, ValueModel,
};

verus! {

// ─── The punctuation bytes of the format ─────────────────────────────────────

pub const B_QUOTE: u8 = 0x22;
pub const B_BACKSLASH: u8 = 0x5c;
pub const B_MINUS: u8 = 0x2d;
pub const B_COMMA: u8 = 0x2c;
pub const B_COLON: u8 = 0x3a;
pub const B_LBRACKET: u8 = 0x5b;
pub const B_RBRACKET: u8 = 0x5d;
pub const B_LBRACE: u8 = 0x7b;
pub const B_RBRACE: u8 = 0x7d;

// ─── Well-formed values ─────────────────────────────────────────────────────

/// A text byte the codec can carry: anything but an unescapable control byte.
/// Tab, newline and carriage return travel escaped; other bytes below 0x20
/// have no escape here and are excluded.
pub open spec fn wf_byte(b: u8) -> bool {
    b >= 0x20 || b == 0x09 || b == 0x0a || b == 0x0d
}

/// Text the codec can carry.
pub open spec fn wf_text(s: Seq<u8>) -> bool {
    forall|i: int| 0 <= i < s.len() ==> wf_byte(#[trigger] s[i])
}

/// A value the codec can carry: integers fit in 64 signed bits, every piece
/// of text is `wf_text`.
pub open spec fn wf_value(g: ValueModel) -> bool
    decreases g,
{
    match g {
        ValueModel::Null => true,
        ValueModel::Bool(_) => true,
        ValueModel::Int(i) => i64::MIN <= i <= i64::MAX,
        ValueModel::Str(s) => wf_text(s),
        ValueModel::Arr(items) => wf_elems(items),
        ValueModel::Obj(pairs) => wf_members(pairs),
    }
}

/// Every element of an array is well-formed.
pub open spec fn wf_elems(items: Seq<ValueModel>) -> bool
    decreases items,
{
    if items.len() == 0 {
        true
    } else {
        wf_elems(items.drop_last()) && wf_value(items.last())
    }
}

/// Every key and value of a map is well-formed.
pub open spec fn wf_members(pairs: Seq<(Seq<u8>, ValueModel)>) -> bool
    decreases pairs,
{
    if pairs.len() == 0 {
        true
    } else {
        wf_members(pairs.drop_last()) && wf_text(pairs.last().0) && wf_value(pairs.last().1)
    }
}

/// `wf_elems` holds elementwise.
pub proof fn lemma_wf_elems_index(items: Seq<ValueModel>)
    requires
        wf_elems(items),
    ensures
        forall|i: int| 0 <= i < items.len() ==> wf_value(#[trigger] items[i]),
    decreases items.len(),
{
    if items.len() > 0 {
        lemma_wf_elems_index(items.drop_last());
        assert forall|i: int| 0 <= i < items.len() implies wf_value(#[trigger] items[i]) by {
            if i < items.len() - 1 {
                assert(items.drop_last()[i] == items[i]);
            } else {
                assert(items[i] == items.last());
            }
        }
    }
}

/// `wf_members` holds elementwise.
pub proof fn lemma_wf_members_index(pairs: Seq<(Seq<u8>, ValueModel)>)
    requires
        wf_members(pairs),
    ensures
        forall|i: int| 0 <= i < pairs.len()
            ==> wf_text(#[trigger] pairs[i].0) && wf_value(pairs[i].1),
    decreases pairs.len(),
{
    if pairs.len() > 0 {
        lemma_wf_members_index(pairs.drop_last());
        assert forall|i: int| 0 <= i < pairs.len() implies wf_text(#[trigger] pairs[i].0)
            && wf_value(pairs[i].1) by {
            if i < pairs.len() - 1 {
                assert(pairs.drop_last()[i] == pairs[i]);
                assert(wf_text(pairs.drop_last()[i].0) && wf_value(pairs.drop_last()[i].1));
            } else {
                assert(pairs[i] == pairs.last());
            }
        }
    }
}

// ─── Serialization, mathematically ──────────────────────────────────────────

/// A decimal digit byte.
pub open spec fn is_digit(b: u8) -> bool {
    0x30 <= b <= 0x39
}

/// The decimal digits of `n`, most significant first.
pub open spec fn dec_digits(n: nat) -> Seq<u8>
    decreases n,
{
    if n < 10 {
        seq![(0x30 + n) as u8]
    } else {
        dec_digits(n / 10).push((0x30 + n % 10) as u8)
    }
}

/// The serialization of an integer: an optional minus sign, then digits.
pub open spec fn ser_int(i: int) -> Seq<u8> {
    if i < 0 {
        seq![B_MINUS] + dec_digits((-i) as nat)
    } else {
        dec_digits(i as nat)
    }
}

/// The escape of one text byte: quote, backslash, newline, carriage return
/// and tab get two-byte escapes; everything else stands for itself.
pub open spec fn esc(b: u8) -> Seq<u8> {
    if b == B_QUOTE {
        seq![B_BACKSLASH, B_QUOTE]
    } else if b == B_BACKSLASH {
        seq![B_BACKSLASH, B_BACKSLASH]
    } else if b == 0x0a {
        seq![B_BACKSLASH, 0x6eu8]
    } else if b == 0x0d {
        seq![B_BACKSLASH, 0x72u8]
    } else if b == 0x09 {
        seq![B_BACKSLASH, 0x74u8]
    } else {
        seq![b]
    }
}

/// The serialized body of a string: each byte escaped, no surrounding quotes.
pub open spec fn ser_str_body(s: Seq<u8>) -> Seq<u8>
    decreases s.len(),
{
    if s.len() == 0 {
        Seq::empty()
    } else {
        ser_str_body(s.drop_last()) + esc(s.last())
    }
}

/// The serialization of a string, quotes included.
pub open spec fn ser_string(s: Seq<u8>) -> Seq<u8> {
    seq![B_QUOTE] + ser_str_body(s) + seq![B_QUOTE]
}

/// The serialization of a value.
pub open spec fn ser_value(g: ValueModel) -> Seq<u8>
    decreases g,
{
    match g {
        ValueModel::Null => seq![0x6eu8, 0x75u8, 0x6cu8, 0x6cu8],
        ValueModel::Bool(b) => if b {
            seq![0x74u8, 0x72u8, 0x75u8, 0x65u8]
        } else {
            seq![0x66u8, 0x61u8, 0x6cu8, 0x73u8, 0x65u8]
        },
        ValueModel::Int(i) => ser_int(i),
        ValueModel::Str(s) => ser_string(s),
        ValueModel::Arr(items) => seq![B_LBRACKET] + ser_elems(items) + seq![B_RBRACKET],
        ValueModel::Obj(pairs) => seq![B_LBRACE] + ser_members(pairs) + seq![B_RBRACE],
    }
}

/// The serialization of array elements: comma-separated.
pub open spec fn ser_elems(items: Seq<ValueModel>) -> Seq<u8>
    decreases items,
{
    if items.len() == 0 {
        Seq::empty()
    } else if items.len() == 1 {
        ser_value(items[0])
    } else {
        ser_elems(items.drop_last()) + seq![B_COMMA] + ser_value(items.last())
    }
}

/// The serialization of all array elements after the first: each preceded by
/// a comma.
pub open spec fn ser_elems_rest(items: Seq<ValueModel>) -> Seq<u8>
    decreases items,
{
    if items.len() == 0 {
        Seq::empty()
    } else {
        seq![B_COMMA] + ser_value(items[0]) + ser_elems_rest(items.skip(1))
    }
}

/// The serialization of one map member: quoted key, colon, value.
pub open spec fn ser_member(p: (Seq<u8>, ValueModel)) -> Seq<u8>
    decreases p,
{
    ser_string(p.0) + seq![B_COLON] + ser_value(p.1)
}

/// The serialization of map members: comma-separated.
pub open spec fn ser_members(pairs: Seq<(Seq<u8>, ValueModel)>) -> Seq<u8>
    decreases pairs,
{
    if pairs.len() == 0 {
        Seq::empty()
    } else if pairs.len() == 1 {
        ser_member(pairs[0])
    } else {
        ser_members(pairs.drop_last()) + seq![B_COMMA] + ser_member(pairs.last())
    }
}

/// The serialization of all map members after the first: each preceded by a
/// comma.
pub open spec fn ser_members_rest(pairs: Seq<(Seq<u8>, ValueModel)>) -> Seq<u8>
    decreases pairs,
{
    if pairs.len() == 0 {
        Seq::empty()
    } else {
        seq![B_COMMA] + ser_member(pairs[0]) + ser_members_rest(pairs.skip(1))
    }
}

// ─── The encoder ─────────────────────────────────────────────────────────────

/// Appends the decimal digits of `n`.
fn encode_u64_digits(n: u64, out: &mut Vec<u8>)
    ensures
        final(out)@ == old(out)@ + dec_digits(n as nat),
    decreases n,
{
    if n < 10 {
        out.push(0x30 + (n as u8));
    } else {
        encode_u64_digits(n / 10, out);
        out.push(0x30 + ((n % 10) as u8));
        proof {
            assert(out@ =~= old(out)@ + dec_digits(n as nat));
        }
    }
}

/// Appends the serialization of a signed integer.
pub fn encode_i64(n: i64, out: &mut Vec<u8>)
    ensures
        final(out)@ == old(out)@ + ser_int(n as int),
{
    if n >= 0 {
        encode_u64_digits(n as u64, out);
    } else {
        out.push(B_MINUS);
        let m: u64 = ((-(n + 1)) as u64) + 1;
        assert(m as nat == (-(n as int)) as nat);
        encode_u64_digits(m, out);
        proof {
            assert(out@ =~= old(out)@ + ser_int(n as int));
        }
    }
}

/// Appends the serialization of a string, quotes and escapes included.
pub fn encode_string(s: &Vec<u8>, out: &mut Vec<u8>)
    ensures
        final(out)@ == old(out)@ + ser_string(s@),
{
    let ghost out0 = out@;
    out.push(B_QUOTE);
    let mut i: usize = 0;
    while i < s.len()
        invariant
            i <= s@.len(),
            out@ == out0 + seq![B_QUOTE] + ser_str_body(s@.take(i as int)),
        decreases s@.len() - i,
    {
        let b = s[i];
        if b == B_QUOTE {
            out.push(B_BACKSLASH);
            out.push(B_QUOTE);
        } else if b == B_BACKSLASH {
            out.push(B_BACKSLASH);
            out.push(B_BACKSLASH);
        } else if b == 0x0a {
            out.push(B_BACKSLASH);
            out.push(0x6e);
        } else if b == 0x0d {
            out.push(B_BACKSLASH);
            out.push(0x72);
        } else if b == 0x09 {
            out.push(B_BACKSLASH);
            out.push(0x74);
        } else {
            out.push(b);
        }
        proof {
            assert(s@.take(i as int + 1).drop_last() =~= s@.take(i as int));
            assert(s@.take(i as int + 1).last() == s@[i as int]);
            assert(out@ =~= out0 + seq![B_QUOTE] + ser_str_body(s@.take(i as int + 1)));
        }
        i = i + 1;
    }
    out.push(B_QUOTE);
    proof {
        assert(s@.take(s@.len() as int) =~= s@);
        assert(out@ =~= old(out)@ + ser_string(s@));
    }
}

/// Appends the serialization of a value.
#[verifier::loop_isolation(false)]
pub fn encode_value(v: &JsonValue, out: &mut Vec<u8>)
    ensures
        final(out)@ == old(out)@ + ser_value(v.deep_view()),
    decreases *v,
{
    match v {
        JsonValue::Null => {
            out.push(0x6e);
            out.push(0x75);
            out.push(0x6c);
            out.push(0x6c);
            proof {
                assert(out@ =~= old(out)@ + ser_value(v.deep_view()));
            }
        },
        JsonValue::Bool(b) => {
            if *b {
                out.push(0x74);
                out.push(0x72);
                out.push(0x75);
                out.push(0x65);
            } else {
                out.push(0x66);
                out.push(0x61);
                out.push(0x6c);
                out.push(0x73);
                out.push(0x65);
            }
            proof {
                assert(out@ =~= old(out)@ + ser_value(v.deep_view()));
            }
        },
        JsonValue::Int(n) => {
            encode_i64(*n, out);
        },
        JsonValue::Str(s) => {
            encode_string(s, out);
        },
        JsonValue::Arr(items) => {
            let ghost out0 = out@;
            let ghost m = deep_view_seq(items@);
            proof {
                lemma_deep_view_seq_index(items@);
            }
            out.push(B_LBRACKET);
            let mut k: usize = 0;
            while k < items.len()
                invariant
                    k <= items@.len(),
                    m == deep_view_seq(items@),
                    m.len() == items@.len(),
                    forall|j: int| 0 <= j < items@.len()
                        ==> #[trigger] m[j] == items@[j].deep_view(),
                    out@ == out0 + seq![B_LBRACKET] + ser_elems(m.take(k as int)),
                decreases items@.len() - k,
            {
                if k > 0 {
                    out.push(B_COMMA);
                }
                proof {
                    assert(*items == v->Arr_0);
                    assert(decreases_to!(*v => v->Arr_0));
                    assert(decreases_to!(v->Arr_0 => v->Arr_0@));
                    assert(decreases_to!(v->Arr_0@ => v->Arr_0@[k as int]));
                    assert(decreases_to!(*v => items@[k as int]));
                }
                encode_value(&items[k], out);
                proof {
                    assert(m.take(k as int + 1).drop_last() =~= m.take(k as int));
                    assert(m.take(k as int + 1).last() == m[k as int]);
                    assert(out@ =~= out0 + seq![B_LBRACKET] + ser_elems(m.take(k as int + 1)));
                }
                k = k + 1;
            }
            out.push(B_RBRACKET);
            proof {
                assert(m.take(m.len() as int) =~= m);
                assert(out@ =~= old(out)@ + ser_value(v.deep_view()));
            }
        },
        JsonValue::Obj(pairs) => {
            let ghost out0 = out@;
            let ghost m = deep_view_pairs(pairs@);
            proof {
                lemma_deep_view_pairs_index(pairs@);
            }
            out.push(B_LBRACE);
            let mut k: usize = 0;
            while k < pairs.len()
                invariant
                    k <= pairs@.len(),
                    m == deep_view_pairs(pairs@),
                    m.len() == pairs@.len(),
                    forall|j: int| 0 <= j < pairs@.len()
                        ==> #[trigger] m[j] == (pairs@[j].0@, pairs@[j].1.deep_view()),
                    out@ == out0 + seq![B_LBRACE] + ser_members(m.take(k as int)),
                decreases pairs@.len() - k,
            {
                if k > 0 {
                    out.push(B_COMMA);
                }
                encode_string(&pairs[k].0, out);
                out.push(B_COLON);
                proof {
                    assert(*pairs == v->Obj_0);
                    assert(decreases_to!(*v => v->Obj_0));
                    assert(decreases_to!(v->Obj_0 => v->Obj_0@));
                    assert(decreases_to!(v->Obj_0@ => v->Obj_0@[k as int]));
                    assert(decreases_to!(v->Obj_0@[k as int] => v->Obj_0@[k as int].1));
                    assert(decreases_to!(*v => pairs@[k as int].1));
                }
                encode_value(&pairs[k].1, out);
                proof {
                    assert(m.take(k as int + 1).drop_last() =~= m.take(k as int));
                    assert(m.take(k as int + 1).last() == m[k as int]);
                    assert(ser_member(m[k as int]) == ser_string(m[k as int].0) + seq![B_COLON]
                        + ser_value(m[k as int].1));
                    assert(m[k as int].0 == pairs@[k as int].0@);
                    assert(m[k as int].1 == pairs@[k as int].1.deep_view());
                    assert(out@ =~= out0 + seq![B_LBRACE] + ser_members(m.take(k as int + 1)));
                }
                k = k + 1;
            }
            out.push(B_RBRACE);
            proof {
                assert(m.take(m.len() as int) =~= m);
                assert(out@ =~= old(out)@ + ser_value(v.deep_view()));
            }
        },
    }
}

// ─── Framing safety ──────────────────────────────────────────────────────────

/// No newline byte anywhere in the text.
pub open spec fn newline_free(s: Seq<u8>) -> bool {
    forall|i: int| 0 <= i < s.len() ==> #[trigger] s[i] != 0x0a
}

/// Newline-free text stays newline-free under concatenation.
proof fn lemma_newline_free_concat(a: Seq<u8>, b: Seq<u8>)
    requires
        newline_free(a),
        newline_free(b),
    ensures
        newline_free(a + b),
{
    assert forall|i: int| 0 <= i < (a + b).len() implies #[trigger] (a + b)[i] != 0x0a by {
        if i < a.len() {
            assert((a + b)[i] == a[i]);
        } else {
            assert((a + b)[i] == b[i - a.len()]);
        }
    }
}

/// The escaped body of well-formed text holds no newline: a newline in the
/// content travels as its two-byte escape.
proof fn lemma_ser_str_body_newline_free(s: Seq<u8>)
    requires
        wf_text(s),
    ensures
        newline_free(ser_str_body(s)),
    decreases s.len(),
{
    if s.len() > 0 {
        assert(wf_text(s.drop_last())) by {
            assert forall|i: int| 0 <= i < s.drop_last().len()
                implies wf_byte(#[trigger] s.drop_last()[i]) by {
                assert(s.drop_last()[i] == s[i]);
            }
        }
        lemma_ser_str_body_newline_free(s.drop_last());
        assert(wf_byte(s.last()));
        assert(newline_free(esc(s.last())));
        lemma_newline_free_concat(ser_str_body(s.drop_last()), esc(s.last()));
    }
}

/// Framing safety: the serialization of a well-formed value holds no newline
/// byte, so the newline written after a message terminates exactly one
/// message.
pub proof fn lemma_ser_value_newline_free(g: ValueModel)
    requires
        wf_value(g),
    ensures
        newline_free(ser_value(g)),
    decreases g,
{
    match g {
        ValueModel::Null => {
            assert(newline_free(ser_value(g)));
        },
        ValueModel::Bool(_) => {
            assert(newline_free(ser_value(g)));
        },
        ValueModel::Int(n) => {
            lemma_dec_digits(abs_of(n));
            assert(newline_free(dec_digits(abs_of(n)))) by {
                assert forall|i: int| 0 <= i < dec_digits(abs_of(n)).len()
                    implies #[trigger] dec_digits(abs_of(n))[i] != 0x0a by {
                    assert(is_digit(dec_digits(abs_of(n))[i]));
                }
            }
            if n < 0 {
                lemma_newline_free_concat(seq![B_MINUS], dec_digits((-n) as nat));
            }
        },
        ValueModel::Str(s) => {
            lemma_ser_str_body_newline_free(s);
            lemma_newline_free_concat(seq![B_QUOTE], ser_str_body(s));
            lemma_newline_free_concat(seq![B_QUOTE] + ser_str_body(s), seq![B_QUOTE]);
        },
        ValueModel::Arr(items) => {
            lemma_ser_elems_newline_free(items);
            lemma_newline_free_concat(seq![B_LBRACKET], ser_elems(items));
            lemma_newline_free_concat(seq![B_LBRACKET] + ser_elems(items), seq![B_RBRACKET]);
        },
        ValueModel::Obj(pairs) => {
            lemma_ser_members_newline_free(pairs);
            lemma_newline_free_concat(seq![B_LBRACE], ser_members(pairs));
            lemma_newline_free_concat(seq![B_LBRACE] + ser_members(pairs), seq![B_RBRACE]);
        },
    }
}

/// Serialized array elements of well-formed values hold no newline.
proof fn lemma_ser_elems_newline_free(items: Seq<ValueModel>)
    requires
        wf_elems(items),
    ensures
        newline_free(ser_elems(items)),
    decreases items,
{
    if items.len() == 1 {
        lemma_ser_value_newline_free(items[0]);
    } else if items.len() > 1 {
        lemma_ser_elems_newline_free(items.drop_last());
        lemma_ser_value_newline_free(items.last());
        lemma_newline_free_concat(ser_elems(items.drop_last()), seq![B_COMMA]);
        lemma_newline_free_concat(
            ser_elems(items.drop_last()) + seq![B_COMMA],
            ser_value(items.last()),
        );
    }
}

/// Serialized map members of well-formed keys and values hold no newline.
proof fn lemma_ser_members_newline_free(pairs: Seq<(Seq<u8>, ValueModel)>)
    requires
        wf_members(pairs),
    ensures
        newline_free(ser_members(pairs)),
    decreases pairs,
{
    if pairs.len() >= 1 {
        lemma_ser_member_newline_free(pairs.last());
        if pairs.len() == 1 {
            assert(pairs[0] == pairs.last());
        } else {
            lemma_ser_members_newline_free(pairs.drop_last());
            lemma_newline_free_concat(ser_members(pairs.drop_last()), seq![B_COMMA]);
            lemma_newline_free_concat(
                ser_members(pairs.drop_last()) + seq![B_COMMA],
                ser_member(pairs.last()),
            );
        }
    }
}

/// One serialized map member of a well-formed key and value holds no newline.
proof fn lemma_ser_member_newline_free(p: (Seq<u8>, ValueModel))
    requires
        wf_text(p.0),
        wf_value(p.1),
    ensures
        newline_free(ser_member(p)),
    decreases p,
{
    lemma_ser_str_body_newline_free(p.0);
    lemma_newline_free_concat(seq![B_QUOTE], ser_str_body(p.0));
    lemma_newline_free_concat(seq![B_QUOTE] + ser_str_body(p.0), seq![B_QUOTE]);
    lemma_ser_value_newline_free(p.1);
    lemma_newline_free_concat(ser_string(p.0), seq![B_COLON]);
    lemma_newline_free_concat(ser_string(p.0) + seq![B_COLON], ser_value(p.1));
}

// ─── The parser: whitespace ──────────────────────────────────────────────────

/// An insignificant whitespace byte: space, tab, line feed, carriage return.
pub open spec fn is_ws(b: u8) -> bool {
    b == 0x20 || b == 0x09 || b == 0x0a || b == 0x0d
}

/// Skips insignificant whitespace: the first position at or after `i` that
/// holds a non-whitespace byte, or the end of the input.
pub fn skip_ws(s: &Vec<u8>, i: usize) -> (j: usize)
    requires
        i <= s@.len(),
    ensures
        i <= j <= s@.len(),
        forall|k: int| i <= k < j ==> is_ws(#[trigger] s@[k]),
        j < s@.len() ==> !is_ws(s@[j as int]),
{
    let mut j = i;
    while j < s.len() && (s[j] == 0x20 || s[j] == 0x09 || s[j] == 0x0a || s[j] == 0x0d)
        invariant
            i <= j <= s@.len(),
            forall|k: int| i <= k < j ==> is_ws(#[trigger] s@[k]),
        decreases s@.len() - j,
    {
        j = j + 1;
    }
    j
}

// ─── The parser: positional matching ─────────────────────────────────────────

/// `pat` appears in `s` at position `i`.
pub open spec fn match_at(pat: Seq<u8>, s: Seq<u8>, i: int) -> bool {
    &&& 0 <= i
    &&& i + pat.len() <= s.len()
    &&& s.subrange(i, i + pat.len()) == pat
}

/// A concatenation matches exactly when its parts match in order.
pub proof fn lemma_match_at_concat(a: Seq<u8>, b: Seq<u8>, s: Seq<u8>, i: int)
    ensures
        match_at(a + b, s, i) <==> (match_at(a, s, i) && match_at(b, s, i + a.len())),
{
    if match_at(a + b, s, i) {
        assert forall|k: int| 0 <= k < a.len() implies s[i + k] == a[k] by {
            assert((a + b)[k] == a[k]);
            assert(s.subrange(i, i + (a + b).len())[k] == s[i + k]);
        }
        assert forall|k: int| 0 <= k < b.len() implies s[i + a.len() + k] == b[k] by {
            assert((a + b)[a.len() + k] == b[k]);
            assert(s.subrange(i, i + (a + b).len())[a.len() + k] == s[i + a.len() + k]);
        }
        assert(s.subrange(i, i + a.len()) =~= a);
        assert(s.subrange(i + a.len(), i + a.len() + b.len()) =~= b);
    }
    if match_at(a, s, i) && match_at(b, s, i + a.len()) {
        assert(s.subrange(i, i + a.len() + b.len()) =~= a + b);
    }
}

/// A one-byte pattern matches exactly when that byte stands at `i`.
pub proof fn lemma_match_at_byte(x: u8, s: Seq<u8>, i: int)
    ensures
        match_at(seq![x], s, i) <==> (0 <= i && i + 1 <= s.len() && s[i] == x),
{
    if 0 <= i && i + 1 <= s.len() && s[i] == x {
        assert(s.subrange(i, i + 1) =~= seq![x]);
    }
    if match_at(seq![x], s, i) {
        assert(s.subrange(i, i + 1)[0] == s[i]);
    }
}

/// The serialized value that `parse_value` inverts: `g` is well-formed, its
/// serialization stands at `i`, and (for an integer) the byte after it is not
/// a digit, so the digit run ends where the serialization ends.
pub open spec fn val_at(g: ValueModel, s: Seq<u8>, i: int) -> bool {
    &&& wf_value(g)
    &&& match_at(ser_value(g), s, i)
    &&& (g is Int ==> (i + ser_value(g).len() == s.len()
        || !is_digit(s[i + ser_value(g).len()])))
}

// ─── The parser: integers ────────────────────────────────────────────────────

/// The absolute value of an integer.
pub open spec fn abs_of(n: int) -> nat {
    if n < 0 {
        (-n) as nat
    } else {
        n as nat
    }
}

/// The number read from a digit sequence, most significant digit first.
pub open spec fn num_of(s: Seq<u8>) -> nat
    decreases s.len(),
{
    if s.len() == 0 {
        0
    } else {
        num_of(s.drop_last()) * 10 + (if s.last() >= 0x30 {
            (s.last() - 0x30) as nat
        } else {
            0
        })
    }
}

/// The decimal digits of `n` are at least one byte, all digits, and read back
/// as `n`.
pub proof fn lemma_dec_digits(n: nat)
    ensures
        dec_digits(n).len() >= 1,
        forall|k: int| 0 <= k < dec_digits(n).len() ==> is_digit(#[trigger] dec_digits(n)[k]),
        num_of(dec_digits(n)) == n,
    decreases n,
{
    if n < 10 {
        let w = seq![(0x30 + n) as u8];
        assert(dec_digits(n) =~= w);
        assert(w.drop_last() =~= Seq::<u8>::empty());
        assert(num_of(w.drop_last()) == 0);
        assert(w.last() == (0x30 + n) as u8);
        assert(num_of(dec_digits(n)) == n);
    } else {
        lemma_dec_digits(n / 10);
        let d = dec_digits(n / 10);
        let w = d.push((0x30 + n % 10) as u8);
        assert(w.drop_last() =~= d);
        assert(w.last() == (0x30 + n % 10) as u8);
        assert(num_of(w) == num_of(d) * 10 + n % 10);
        assert(n / 10 * 10 + n % 10 == n) by {
            vstd::arithmetic::div_mod::lemma_fundamental_div_mod(n as int, 10);
        }
        assert forall|k: int| 0 <= k < w.len() implies is_digit(#[trigger] w[k]) by {
            if k < d.len() {
                assert(w[k] == d[k]);
            }
        }
    }
}

/// Reading one more digit can only grow the number read.
pub proof fn lemma_num_of_take_le(d: Seq<u8>, k: int)
    requires
        0 <= k <= d.len(),
    ensures
        num_of(d.take(k)) <= num_of(d),
    decreases d.len() - k,
{
    if k < d.len() {
        assert(d.take(k + 1).drop_last() =~= d.take(k));
        assert(num_of(d.take(k + 1)) >= num_of(d.take(k)));
        lemma_num_of_take_le(d, k + 1);
    } else {
        assert(d.take(k) =~= d);
    }
}

/// The serialization of an integer `n` stands at `i` in `s`, with no digit
/// directly after it.
pub open spec fn int_at(n: int, s: Seq<u8>, i: int) -> bool {
    &&& i64::MIN <= n <= i64::MAX
    &&& match_at(ser_int(n), s, i)
    &&& (i + ser_int(n).len() == s.len() || !is_digit(s[i + ser_int(n).len()]))
}

/// Parses an integer at position `i`: an optional minus sign, then the
/// longest run of digits, rejected if the value overflows 64 signed bits.
/// Inverts `ser_int` wherever an integer's serialization stands at `i`.
#[verifier::loop_isolation(false)]
fn parse_int(s: &Vec<u8>, i: usize) -> (r: Result<(i64, usize), ()>)
    requires
        i <= s@.len(),
    ensures
        r matches Ok(p) ==> i < p.1 <= s@.len(),
        forall|n: int| int_at(n, s@, i as int)
            ==> (r matches Ok(p) && p.0 as int == n && p.1 == i + ser_int(n).len()),
{
    proof {
        assert forall|n: int| int_at(n, s@, i as int) implies ser_int(n).len() >= 1
            && (n < 0 ==> s@[i as int] == B_MINUS)
            && (n >= 0 ==> is_digit(s@[i as int])) by {
            lemma_dec_digits(if n < 0 { (-n) as nat } else { n as nat });
            if n < 0 {
                lemma_match_at_concat(seq![B_MINUS], dec_digits((-n) as nat), s@, i as int);
                lemma_match_at_byte(B_MINUS, s@, i as int);
            } else {
                assert(s@.subrange(i as int, i + ser_int(n).len())[0] == s@[i as int]);
            }
        }
    }
    let mut j = i;
    let mut neg = false;
    if j < s.len() && s[j] == B_MINUS {
        neg = true;
        j = j + 1;
    }
    proof {
        // After the sign, every candidate's digit run starts at j.
        assert forall|n: int| int_at(n, s@, i as int) implies (n < 0) == neg
            && match_at(dec_digits(abs_of(n)), s@, j as int)
            && j + dec_digits(abs_of(n)).len() == i + ser_int(n).len() by {
            lemma_dec_digits(abs_of(n));
            if n < 0 {
                lemma_match_at_concat(seq![B_MINUS], dec_digits((-n) as nat), s@, i as int);
            } else {
                assert(!is_digit(B_MINUS));
            }
        }
    }
    if j >= s.len() || !(0x30 <= s[j] && s[j] <= 0x39) {
        proof {
            assert forall|n: int| !int_at(n, s@, i as int) by {
                if int_at(n, s@, i as int) {
                    lemma_dec_digits(abs_of(n));
                    assert(s@.subrange(j as int, j + dec_digits(abs_of(n)).len())[0]
                        == s@[j as int]);
                }
            }
        }
        return Err(());
    }
    let ghost j0 = j as int;
    let mut acc: u64 = 0;
    while j < s.len() && 0x30 <= s[j] && s[j] <= 0x39
        invariant
            j0 <= j <= s@.len(),
            forall|k: int| j0 <= k < j ==> is_digit(#[trigger] s@[k]),
            acc == num_of(s@.subrange(j0, j as int)),
            forall|n: int| int_at(n, s@, i as int)
                ==> j <= j0 + dec_digits(abs_of(n)).len(),
        decreases s@.len() - j,
    {
        let d: u64 = (s[j] - 0x30) as u64;
        proof {
            // A candidate whose digits are not yet exhausted keeps the
            // accumulator within its final value, so the next step fits.
            assert forall|n: int| int_at(n, s@, i as int) implies acc * 10 + d <= abs_of(n) by {
                let w = dec_digits(abs_of(n));
                lemma_dec_digits(abs_of(n));
                if j == j0 + w.len() {
                    assert(!is_digit(s@[j as int]));
                    assert(false);
                }
                assert(s@.subrange(j0, j0 + w.len()) == w);
                assert forall|k: int| j0 <= k < j + 1 implies s@[k] == w[k - j0] by {
                    assert(w[k - j0] == s@.subrange(j0, j0 + w.len())[k - j0]);
                }
                assert(s@.subrange(j0, j as int) =~= w.take(j - j0));
                assert(s@.subrange(j0, j as int + 1) =~= w.take(j - j0 + 1));
                assert(w.take(j - j0 + 1).drop_last() =~= w.take(j - j0));
                assert(num_of(w.take(j - j0 + 1)) == acc * 10 + d);
                lemma_num_of_take_le(w, j - j0 + 1);
            }
        }
        if acc > (u64::MAX - d) / 10 {
            proof {
                assert forall|n: int| !int_at(n, s@, i as int) by {
                    if int_at(n, s@, i as int) {
                        assert(acc * 10 + d <= abs_of(n));
                        assert(abs_of(n) <= 0x8000_0000_0000_0000);
                        assert(acc <= (u64::MAX - d) / 10) by {
                            assert(acc * 10 <= u64::MAX - d);
                            vstd::arithmetic::div_mod::lemma_fundamental_div_mod(
                                (u64::MAX - d) as int, 10);
                        }
                    }
                }
            }
            return Err(());
        }
        proof {
            assert(acc * 10 + d <= u64::MAX) by {
                assert(acc <= (u64::MAX - d) / 10);
                vstd::arithmetic::div_mod::lemma_fundamental_div_mod((u64::MAX - d) as int, 10);
                assert(acc * 10 <= ((u64::MAX - d) / 10) * 10) by (nonlinear_arith)
                    requires acc <= (u64::MAX - d) / 10;
            }
            assert(s@.subrange(j0, j as int + 1).drop_last() =~= s@.subrange(j0, j as int));
        }
        acc = acc * 10 + d;
        j = j + 1;
    }
    proof {
        // The run ended exactly where every candidate's digits end.
        assert forall|n: int| int_at(n, s@, i as int) implies acc == abs_of(n)
            && j == i + ser_int(n).len() by {
            let w = dec_digits(abs_of(n));
            lemma_dec_digits(abs_of(n));
            if j < j0 + w.len() {
                assert(s@[j as int] == s@.subrange(j0, j0 + w.len())[j - j0]);
                assert(is_digit(s@[j as int]));
                assert(false);
            }
            assert(s@.subrange(j0, j as int) =~= w);
        }
    }
    if neg {
        if acc > 0x8000_0000_0000_0000u64 {
            proof {
                assert forall|n: int| !int_at(n, s@, i as int) by {}
            }
            return Err(());
        }
        let v: i64 = if acc == 0x8000_0000_0000_0000u64 {
            i64::MIN
        } else {
            -(acc as i64)
        };
        Ok((v, j))
    } else {
        if acc > 0x7fff_ffff_ffff_ffffu64 {
            proof {
                assert forall|n: int| !int_at(n, s@, i as int) by {}
            }
            return Err(());
        }
        Ok((acc as i64, j))
    }
}

// ─── The parser: strings ─────────────────────────────────────────────────────

/// Escaping text distributes over concatenation.
pub proof fn lemma_ser_str_body_concat(a: Seq<u8>, b: Seq<u8>)
    ensures
        ser_str_body(a + b) == ser_str_body(a) + ser_str_body(b),
    decreases b.len(),
{
    if b.len() == 0 {
        assert(a + b =~= a);
        assert(ser_str_body(a) + ser_str_body(b) =~= ser_str_body(a));
    } else {
        lemma_ser_str_body_concat(a, b.drop_last());
        assert((a + b).drop_last() =~= a + b.drop_last());
        assert((a + b).last() == b.last());
        assert(ser_str_body(a + b) =~= ser_str_body(a) + ser_str_body(b));
    }
}

/// The escaped body of `c` stands at `i`, and a closing quote directly after.
pub open spec fn str_body_at(c: Seq<u8>, s: Seq<u8>, i: int) -> bool {
    &&& match_at(ser_str_body(c), s, i)
    &&& i + ser_str_body(c).len() + 1 <= s.len()
    &&& s[i + ser_str_body(c).len()] == B_QUOTE
}

/// What the next input byte must be, `m` characters into reading a string
/// whose escaped body stands at `i`: the closing quote if the content is
/// exhausted, otherwise the escape of the next content byte.
proof fn lemma_str_body_step(c: Seq<u8>, s: Seq<u8>, i: int, m: int)
    requires
        str_body_at(c, s, i),
        0 <= m <= c.len(),
    ensures
        i + ser_str_body(c.take(m)).len() <= i + ser_str_body(c).len() < s.len(),
        m == c.len() ==> ser_str_body(c.take(m)).len() == ser_str_body(c).len()
            && s[i + ser_str_body(c).len()] == B_QUOTE,
        m < c.len() ==> match_at(esc(c[m]), s, i + ser_str_body(c.take(m)).len())
            && ser_str_body(c.take(m)).len() + esc(c[m]).len()
                == ser_str_body(c.take(m + 1)).len(),
{
    if m == c.len() {
        assert(c.take(m) =~= c);
    } else {
        assert(c.take(m + 1).drop_last() =~= c.take(m));
        assert(c.take(m + 1).last() == c[m]);
        assert(ser_str_body(c.take(m + 1)) == ser_str_body(c.take(m)) + esc(c[m]));
        assert(c =~= c.take(m + 1) + c.skip(m + 1));
        lemma_ser_str_body_concat(c.take(m + 1), c.skip(m + 1));
        lemma_match_at_concat(
            ser_str_body(c.take(m + 1)),
            ser_str_body(c.skip(m + 1)),
            s,
            i,
        );
        lemma_match_at_concat(
            ser_str_body(c.take(m)),
            esc(c[m]),
            s,
            i,
        );
    }
}

/// The value of a hexadecimal digit byte, or -1.
pub open spec fn hex_val(b: u8) -> int {
    if 0x30 <= b <= 0x39 {
        b - 0x30
    } else if 0x61 <= b <= 0x66 {
        b - 0x61 + 10
    } else if 0x41 <= b <= 0x46 {
        b - 0x41 + 10
    } else {
        -1
    }
}

/// Reads one hexadecimal digit.
fn hex_digit(b: u8) -> (r: Option<u8>)
    ensures
        r is Some <==> hex_val(b) >= 0,
        r matches Some(v) ==> v as int == hex_val(b) && v < 16,
{
    if 0x30 <= b && b <= 0x39 {
        Some(b - 0x30)
    } else if 0x61 <= b && b <= 0x66 {
        Some(b - 0x61 + 10)
    } else if 0x41 <= b && b <= 0x46 {
        Some(b - 0x41 + 10)
    } else {
        None
    }
}

/// Reads the four hexadecimal digits at `i` as one number.
fn hex16(s: &Vec<u8>, i: usize) -> (r: Option<u16>)
    requires
        i + 4 <= s@.len(),
    ensures
        r is Some <==> (hex_val(s@[i as int]) >= 0 && hex_val(s@[i as int + 1]) >= 0
            && hex_val(s@[i as int + 2]) >= 0 && hex_val(s@[i as int + 3]) >= 0),
        r matches Some(h) ==> h as int == hex_val(s@[i as int]) * 0x1000
            + hex_val(s@[i as int + 1]) * 0x100 + hex_val(s@[i as int + 2]) * 0x10
            + hex_val(s@[i as int + 3]),
{
    let n = s.len();
    proof {
        // the four indices below stay within the vector
        assert(i + 4 <= n);
    }
    let d0 = match hex_digit(s[i]) {
        Some(v) => v,
        None => {
            return None;
        },
    };
    let d1 = match hex_digit(s[i + 1]) {
        Some(v) => v,
        None => {
            return None;
        },
    };
    let d2 = match hex_digit(s[i + 2]) {
        Some(v) => v,
        None => {
            return None;
        },
    };
    let d3 = match hex_digit(s[i + 3]) {
        Some(v) => v,
        None => {
            return None;
        },
    };
    Some((d0 as u16) * 0x1000 + (d1 as u16) * 0x100 + (d2 as u16) * 0x10 + (d3 as u16))
}

/// Parses a string body at position `i` (just past the opening quote), up to
/// and including the closing quote. Returns the unescaped content and the
/// position after the closing quote. Inverts `ser_str_body` wherever an
/// escaped body and its closing quote stand at `i`; `\uXXXX` escapes
/// (surrogate pairs included) are read as well, beyond what the contract
/// pins, since the encoder never emits them.
#[verifier::loop_isolation(false)]
fn parse_string_body(s: &Vec<u8>, i: usize) -> (r: Result<(Vec<u8>, usize), ()>)
    requires
        i <= s@.len(),
    ensures
        r matches Ok(p) ==> i < p.1 <= s@.len(),
        forall|c: Seq<u8>| #[trigger] str_body_at(c, s@, i as int)
            ==> (r matches Ok(p) && p.0@ == c && p.1 == i + ser_str_body(c).len() + 1),
{
    let mut acc: Vec<u8> = Vec::new();
    let mut j: usize = i;
    loop
        invariant
            i <= j <= s@.len(),
            forall|c: Seq<u8>| #[trigger] str_body_at(c, s@, i as int)
                ==> acc@.len() <= c.len() && acc@ == c.take(acc@.len() as int)
                    && j == i + ser_str_body(c.take(acc@.len() as int)).len(),
        decreases s@.len() - j,
    {
        let ghost m = acc@.len() as int;
        if j >= s.len() {
            proof {
                assert forall|c: Seq<u8>| !str_body_at(c, s@, i as int) by {
                    if str_body_at(c, s@, i as int) {
                        lemma_str_body_step(c, s@, i as int, m);
                    }
                }
            }
            return Err(());
        }
        let b = s[j];
        if b == B_QUOTE {
            proof {
                assert forall|c: Seq<u8>| #[trigger] str_body_at(c, s@, i as int)
                    implies acc@ == c && j + 1 == i + ser_str_body(c).len() + 1 by {
                    lemma_str_body_step(c, s@, i as int, m);
                    if m < c.len() {
                        assert(s@.subrange(j as int, j + esc(c[m]).len())[0] == s@[j as int]);
                        assert(esc(c[m])[0] == B_QUOTE);
                        assert(false);
                    }
                    assert(c.take(m) =~= c);
                }
            }
            return Ok((acc, j + 1));
        } else if b == B_BACKSLASH {
            proof {
                // Every candidate still has content, and its next byte is one
                // of the five escaped bytes.
                assert forall|c: Seq<u8>| #[trigger] str_body_at(c, s@, i as int)
                    implies m < c.len() && esc(c[m]).len() == 2
                        && j + 2 <= s@.len() && s@[j + 1] == esc(c[m])[1]
                        && (c[m] == B_QUOTE || c[m] == B_BACKSLASH || c[m] == 0x0a
                            || c[m] == 0x0d || c[m] == 0x09) by {
                    lemma_str_body_step(c, s@, i as int, m);
                    if m == c.len() {
                        assert(false);
                    }
                    assert(s@.subrange(j as int, j + esc(c[m]).len())[0] == s@[j as int]);
                    assert(esc(c[m])[0] == B_BACKSLASH);
                    assert(s@.subrange(j as int, j + esc(c[m]).len())[1] == s@[j + 1]);
                }
            }
            if j + 1 >= s.len() {
                return Err(());
            }
            let e = s[j + 1];
            if e == 0x75 {
                // A \uXXXX escape. The serializer never writes one (its five
                // escapes cover the protocol's own text), so no serialized
                // body reaches this arm: read it for peers that escape more
                // than they must, decoding the code point as UTF-8.
                proof {
                    assert forall|c: Seq<u8>| !str_body_at(c, s@, i as int) by {
                        if str_body_at(c, s@, i as int) {
                            assert(false);
                        }
                    }
                }
                if s.len() - j < 6 {
                    return Err(());
                }
                let h = match hex16(s, j + 2) {
                    Some(h) => h,
                    None => {
                        return Err(());
                    },
                };
                if 0xd800 <= h && h <= 0xdbff {
                    // a high surrogate: its partner must follow directly
                    if s.len() - j < 12 || s[j + 6] != B_BACKSLASH || s[j + 7] != 0x75 {
                        return Err(());
                    }
                    let lo = match hex16(s, j + 8) {
                        Some(l) => l,
                        None => {
                            return Err(());
                        },
                    };
                    if !(0xdc00 <= lo && lo <= 0xdfff) {
                        return Err(());
                    }
                    let cp: u32 = 0x10000 + ((h as u32) - 0xd800) * 0x400 + ((lo as u32)
                        - 0xdc00);
                    acc.push((0xf0 + cp / 0x40000) as u8);
                    acc.push((0x80 + (cp / 0x1000) % 0x40) as u8);
                    acc.push((0x80 + (cp / 0x40) % 0x40) as u8);
                    acc.push((0x80 + cp % 0x40) as u8);
                    j = j + 12;
                    continue;
                }
                if 0xdc00 <= h && h <= 0xdfff {
                    // a lone low surrogate names no code point
                    return Err(());
                }
                if h < 0x80 {
                    acc.push(h as u8);
                } else if h < 0x800 {
                    acc.push((0xc0 + h / 0x40) as u8);
                    acc.push((0x80 + h % 0x40) as u8);
                } else {
                    acc.push((0xe0 + h / 0x1000) as u8);
                    acc.push((0x80 + (h / 0x40) % 0x40) as u8);
                    acc.push((0x80 + h % 0x40) as u8);
                }
                j = j + 6;
                continue;
            }
            let decoded: u8 = if e == B_QUOTE {
                B_QUOTE
            } else if e == B_BACKSLASH {
                B_BACKSLASH
            } else if e == 0x6e {
                0x0a
            } else if e == 0x72 {
                0x0d
            } else if e == 0x74 {
                0x09
            } else {
                return Err(());
            };
            proof {
                assert forall|c: Seq<u8>| #[trigger] str_body_at(c, s@, i as int)
                    implies acc@.push(decoded) == c.take(m + 1)
                        && j + 2 == i + ser_str_body(c.take(m + 1)).len() by {
                    lemma_str_body_step(c, s@, i as int, m);
                    assert(c[m] == decoded);
                    assert(acc@.push(decoded) =~= c.take(m + 1));
                }
            }
            acc.push(decoded);
            j = j + 2;
        } else {
            proof {
                assert forall|c: Seq<u8>| #[trigger] str_body_at(c, s@, i as int)
                    implies m < c.len() && c[m] == b && esc(c[m]).len() == 1
                        && acc@.push(b) == c.take(m + 1)
                        && j + 1 == i + ser_str_body(c.take(m + 1)).len() by {
                    lemma_str_body_step(c, s@, i as int, m);
                    if m == c.len() {
                        assert(false);
                    }
                    assert(s@.subrange(j as int, j + esc(c[m]).len())[0] == s@[j as int]);
                    assert(esc(c[m])[0] == b);
                    assert(acc@.push(b) =~= c.take(m + 1));
                }
            }
            acc.push(b);
            j = j + 1;
        }
    }
}

// ─── The parser: values ──────────────────────────────────────────────────────

/// The first byte of a serialization names its constructor.
pub proof fn lemma_ser_value_first(g: ValueModel)
    ensures
        ser_value(g).len() >= 1,
        g is Null ==> ser_value(g)[0] == 0x6e,
        g matches ValueModel::Bool(b) ==> ser_value(g)[0] == (if b { 0x74u8 } else { 0x66u8 }),
        g is Int ==> (ser_value(g)[0] == B_MINUS || is_digit(ser_value(g)[0])),
        g is Str ==> ser_value(g)[0] == B_QUOTE,
        g is Arr ==> ser_value(g)[0] == B_LBRACKET,
        g is Obj ==> ser_value(g)[0] == B_LBRACE,
{
    match g {
        ValueModel::Int(n) => {
            lemma_dec_digits(abs_of(n));
            if n < 0 {
                assert((seq![B_MINUS] + dec_digits((-n) as nat))[0] == B_MINUS);
            } else {
                assert(is_digit(dec_digits(n as nat)[0]));
            }
        },
        ValueModel::Str(c) => {
            assert((seq![B_QUOTE] + ser_str_body(c) + seq![B_QUOTE])[0] == B_QUOTE);
        },
        ValueModel::Arr(m) => {
            assert((seq![B_LBRACKET] + ser_elems(m) + seq![B_RBRACKET])[0] == B_LBRACKET);
        },
        ValueModel::Obj(m) => {
            assert((seq![B_LBRACE] + ser_members(m) + seq![B_RBRACE])[0] == B_LBRACE);
        },
        _ => {},
    }
}

/// Elements before `k` and elements from `k` on serialize independently.
proof fn lemma_ser_elems_split(m: Seq<ValueModel>, k: int)
    requires
        1 <= k <= m.len(),
    ensures
        ser_elems(m) == ser_elems(m.take(k)) + ser_elems_rest(m.skip(k)),
    decreases m.len() - k,
{
    if k == m.len() {
        assert(m.take(k) =~= m);
        assert(m.skip(k) =~= Seq::<ValueModel>::empty());
        assert(ser_elems(m) =~= ser_elems(m.take(k)) + ser_elems_rest(m.skip(k)));
    } else {
        lemma_ser_elems_split(m, k + 1);
        assert(m.take(k + 1).drop_last() =~= m.take(k));
        assert(m.take(k + 1).last() == m[k]);
        assert(m.take(k + 1).len() == k + 1);
        assert(m.skip(k)[0] == m[k]);
        assert(m.skip(k).skip(1) =~= m.skip(k + 1));
        if k + 1 == 1 {
            assert(ser_elems(m.take(1)) == ser_value(m[0]));
        }
        assert(ser_elems(m) =~= ser_elems(m.take(k)) + ser_elems_rest(m.skip(k)));
    }
}

/// Members before `k` and members from `k` on serialize independently.
proof fn lemma_ser_members_split(m: Seq<(Seq<u8>, ValueModel)>, k: int)
    requires
        1 <= k <= m.len(),
    ensures
        ser_members(m) == ser_members(m.take(k)) + ser_members_rest(m.skip(k)),
    decreases m.len() - k,
{
    if k == m.len() {
        assert(m.take(k) =~= m);
        assert(m.skip(k) =~= Seq::<(Seq<u8>, ValueModel)>::empty());
        assert(ser_members(m) =~= ser_members(m.take(k)) + ser_members_rest(m.skip(k)));
    } else {
        lemma_ser_members_split(m, k + 1);
        assert(m.take(k + 1).drop_last() =~= m.take(k));
        assert(m.take(k + 1).last() == m[k]);
        assert(m.take(k + 1).len() == k + 1);
        assert(m.skip(k)[0] == m[k]);
        assert(m.skip(k).skip(1) =~= m.skip(k + 1));
        if k + 1 == 1 {
            assert(ser_members(m.take(1)) == ser_member(m[0]));
        }
        assert(ser_members(m) =~= ser_members(m.take(k)) + ser_members_rest(m.skip(k)));
    }
}

/// Where element `k` of a serialized array stands.
pub open spec fn elem_pos(m: Seq<ValueModel>, k: int, i: int) -> int {
    i + 1 + ser_elems(m.take(k)).len() + if k > 0 {
        1int
    } else {
        0int
    }
}

/// Where member `k` of a serialized map stands.
pub open spec fn member_pos(m: Seq<(Seq<u8>, ValueModel)>, k: int, i: int) -> int {
    i + 1 + ser_members(m.take(k)).len() + if k > 0 {
        1int
    } else {
        0int
    }
}

/// Element `k` of an array serialized at `i` stands at `elem_pos`, and a
/// comma or the closing bracket follows it.
proof fn lemma_arr_elem(m: Seq<ValueModel>, s: Seq<u8>, i: int, k: int)
    requires
        wf_elems(m),
        match_at(seq![B_LBRACKET] + ser_elems(m) + seq![B_RBRACKET], s, i),
        0 <= k < m.len(),
    ensures
        val_at(m[k], s, elem_pos(m, k, i)),
        elem_pos(m, k, i) + ser_value(m[k]).len() < s.len(),
        k + 1 < m.len() ==> s[elem_pos(m, k, i) + ser_value(m[k]).len()] == B_COMMA
            && elem_pos(m, k + 1, i) == elem_pos(m, k, i) + ser_value(m[k]).len() + 1,
        k + 1 == m.len() ==> s[elem_pos(m, k, i) + ser_value(m[k]).len()] == B_RBRACKET
            && elem_pos(m, k, i) + ser_value(m[k]).len() + 1
                == i + ser_value(ValueModel::Arr(m)).len(),
{
    lemma_wf_elems_index(m);
    let e = ser_elems(m);
    let v = ser_value(m[k]);
    let t = ser_elems_rest(m.skip(k + 1));
    lemma_match_at_concat(seq![B_LBRACKET] + e, seq![B_RBRACKET], s, i);
    lemma_match_at_concat(seq![B_LBRACKET], e, s, i);
    lemma_match_at_byte(B_RBRACKET, s, i + 1 + e.len());
    // e == prefix + v + t, where prefix is the first k elements and their
    // separators, comma after them included when k > 0.
    assert(m.skip(k)[0] == m[k]);
    assert(m.skip(k).skip(1) =~= m.skip(k + 1));
    let q = elem_pos(m, k, i);
    if k == 0 {
        assert(m.take(0) =~= Seq::<ValueModel>::empty());
        if m.len() == 1 {
            assert(m.take(1) =~= m);
            assert(m.skip(1) =~= Seq::<ValueModel>::empty());
            assert(e == ser_value(m[0]));
            assert(e =~= v + t);
        } else {
            lemma_ser_elems_split(m, 1);
            assert(m.take(1).len() == 1);
            assert(m.take(1)[0] == m[0]);
            assert(ser_elems(m.take(1)) == ser_value(m[0]));
            assert(ser_elems_rest(m.skip(1)) =~= seq![B_COMMA] + ser_value(m.skip(1)[0])
                + ser_elems_rest(m.skip(1).skip(1)));
            assert(m.skip(1)[0] == m[1]);
            assert(e =~= v + t);
        }
        lemma_match_at_concat(v, t, s, i + 1);
        assert(q == i + 1);
    } else {
        lemma_ser_elems_split(m, k);
        let p = ser_elems(m.take(k));
        let r = ser_elems_rest(m.skip(k));
        assert(e == p + r);
        assert(r == seq![B_COMMA] + ser_value(m[k]) + ser_elems_rest(m.skip(k + 1)));
        lemma_match_at_concat(p, r, s, i + 1);
        assert(r =~= seq![B_COMMA] + (v + t));
        lemma_match_at_concat(seq![B_COMMA], v + t, s, i + 1 + p.len());
        lemma_match_at_concat(v, t, s, i + 1 + p.len() + 1);
        assert(q == i + 1 + p.len() + 1);
    }
    assert(match_at(v, s, q));
    assert(match_at(t, s, q + v.len()));
    // What follows element k.
    if k + 1 < m.len() {
        assert(m.skip(k + 1).len() > 0);
        assert(t == seq![B_COMMA] + ser_value(m.skip(k + 1)[0])
            + ser_elems_rest(m.skip(k + 1).skip(1)));
        assert(t[0] == B_COMMA);
        assert(s.subrange(q + v.len(), q + v.len() + t.len())[0] == s[q + v.len()]);
        assert(s[q + v.len()] == B_COMMA);
        // position of the next element
        assert(m.take(k + 1).drop_last() =~= m.take(k));
        assert(m.take(k + 1).last() == m[k]);
        assert(m.take(k + 1).len() == k + 1);
        if k == 0 {
            assert(ser_elems(m.take(1)) == ser_value(m[0]));
        } else {
            assert(ser_elems(m.take(k + 1)) == ser_elems(m.take(k)) + seq![B_COMMA] + v);
        }
        assert(elem_pos(m, k + 1, i) == q + v.len() + 1);
    } else {
        assert(m.skip(k + 1) =~= Seq::<ValueModel>::empty());
        assert(t.len() == 0);
        // the byte after the last element is the closing bracket
        assert(q + v.len() == i + 1 + e.len());
        assert(s[i + 1 + e.len()] == B_RBRACKET);
    }
    // the byte after the element is never a digit
    assert(!is_digit(B_COMMA) && !is_digit(B_RBRACKET));
    assert(val_at(m[k], s, q));
}

/// Member `k` of a map serialized at `i`: its quoted key, its colon, its
/// value, and the comma or closing brace after it.
proof fn lemma_obj_member(m: Seq<(Seq<u8>, ValueModel)>, s: Seq<u8>, i: int, k: int)
    requires
        wf_members(m),
        match_at(seq![B_LBRACE] + ser_members(m) + seq![B_RBRACE], s, i),
        0 <= k < m.len(),
    ensures
        ({
            let q = member_pos(m, k, i);
            let kl = ser_string(m[k].0).len();
            let vl = ser_value(m[k].1).len();
            &&& q + kl + 1 + vl < s.len()
            &&& s[q] == B_QUOTE
            &&& str_body_at(m[k].0, s, q + 1)
            &&& kl == ser_str_body(m[k].0).len() + 2
            &&& s[q + kl] == B_COLON
            &&& val_at(m[k].1, s, q + kl + 1)
            &&& (k + 1 < m.len() ==> s[q + kl + 1 + vl] == B_COMMA
                && member_pos(m, k + 1, i) == q + kl + 1 + vl + 1)
            &&& (k + 1 == m.len() ==> s[q + kl + 1 + vl] == B_RBRACE
                && q + kl + 1 + vl + 1 == i + ser_value(ValueModel::Obj(m)).len())
        }),
{
    lemma_wf_members_index(m);
    let e = ser_members(m);
    let w = ser_member(m[k]);
    let t = ser_members_rest(m.skip(k + 1));
    lemma_match_at_concat(seq![B_LBRACE] + e, seq![B_RBRACE], s, i);
    lemma_match_at_concat(seq![B_LBRACE], e, s, i);
    lemma_match_at_byte(B_RBRACE, s, i + 1 + e.len());
    assert(m.skip(k)[0] == m[k]);
    assert(m.skip(k).skip(1) =~= m.skip(k + 1));
    let q = member_pos(m, k, i);
    if k == 0 {
        assert(m.take(0) =~= Seq::<(Seq<u8>, ValueModel)>::empty());
        if m.len() == 1 {
            assert(m.take(1) =~= m);
            assert(m.skip(1) =~= Seq::<(Seq<u8>, ValueModel)>::empty());
            assert(e == ser_member(m[0]));
            assert(e =~= w + t);
        } else {
            lemma_ser_members_split(m, 1);
            assert(m.take(1).len() == 1);
            assert(m.take(1)[0] == m[0]);
            assert(ser_members(m.take(1)) == ser_member(m[0]));
            assert(ser_members_rest(m.skip(1)) =~= seq![B_COMMA] + ser_member(m.skip(1)[0])
                + ser_members_rest(m.skip(1).skip(1)));
            assert(m.skip(1)[0] == m[1]);
            assert(e =~= w + t);
        }
        lemma_match_at_concat(w, t, s, i + 1);
        assert(q == i + 1);
    } else {
        lemma_ser_members_split(m, k);
        let p = ser_members(m.take(k));
        let r = ser_members_rest(m.skip(k));
        assert(e == p + r);
        assert(r == seq![B_COMMA] + ser_member(m[k]) + ser_members_rest(m.skip(k + 1)));
        lemma_match_at_concat(p, r, s, i + 1);
        assert(r =~= seq![B_COMMA] + (w + t));
        lemma_match_at_concat(seq![B_COMMA], w + t, s, i + 1 + p.len());
        lemma_match_at_concat(w, t, s, i + 1 + p.len() + 1);
        assert(q == i + 1 + p.len() + 1);
    }
    assert(match_at(w, s, q));
    assert(match_at(t, s, q + w.len()));
    // split the member into its key string, colon, and value
    let key = m[k].0;
    let v = ser_value(m[k].1);
    assert(w == ser_string(key) + seq![B_COLON] + v);
    assert(w =~= (seq![B_QUOTE] + ser_str_body(key) + seq![B_QUOTE]) + (seq![B_COLON] + v));
    lemma_match_at_concat(seq![B_QUOTE] + ser_str_body(key) + seq![B_QUOTE], seq![B_COLON] + v,
        s, q);
    assert(seq![B_QUOTE] + ser_str_body(key) + seq![B_QUOTE]
        =~= seq![B_QUOTE] + (ser_str_body(key) + seq![B_QUOTE]));
    lemma_match_at_concat(seq![B_QUOTE], ser_str_body(key) + seq![B_QUOTE], s, q);
    lemma_match_at_byte(B_QUOTE, s, q);
    lemma_match_at_concat(ser_str_body(key), seq![B_QUOTE], s, q + 1);
    lemma_match_at_byte(B_QUOTE, s, q + 1 + ser_str_body(key).len());
    let kl = ser_string(key).len();
    lemma_match_at_concat(seq![B_COLON], v, s, q + kl);
    lemma_match_at_byte(B_COLON, s, q + kl);
    assert(str_body_at(key, s, q + 1));
    assert(match_at(v, s, q + kl + 1));
    // what follows the member
    if k + 1 < m.len() {
        assert(m.skip(k + 1).len() > 0);
        assert(t == seq![B_COMMA] + ser_member(m.skip(k + 1)[0])
            + ser_members_rest(m.skip(k + 1).skip(1)));
        assert(t[0] == B_COMMA);
        assert(s.subrange(q + w.len(), q + w.len() + t.len())[0] == s[q + w.len()]);
        assert(s[q + w.len()] == B_COMMA);
        assert(m.take(k + 1).drop_last() =~= m.take(k));
        assert(m.take(k + 1).last() == m[k]);
        assert(m.take(k + 1).len() == k + 1);
        if k == 0 {
            assert(ser_members(m.take(1)) == ser_member(m[0]));
        } else {
            assert(ser_members(m.take(k + 1)) == ser_members(m.take(k)) + seq![B_COMMA] + w);
        }
        assert(member_pos(m, k + 1, i) == q + w.len() + 1);
    } else {
        assert(m.skip(k + 1) =~= Seq::<(Seq<u8>, ValueModel)>::empty());
        assert(t.len() == 0);
        assert(q + w.len() == i + 1 + e.len());
        assert(s[i + 1 + e.len()] == B_RBRACE);
    }
    assert(!is_digit(B_COMMA) && !is_digit(B_RBRACE));
    assert(val_at(m[k].1, s, q + kl + 1));
}

/// Parses one value at position `start`, skipping insignificant whitespace
/// between the tokens: the value and the position after it. Inverts
/// `ser_value`: wherever the serialization of a well-formed value stands at
/// `start` (with no digit directly after an integer), exactly that value
/// comes back; text with whitespace between its tokens is read as well,
/// beyond what the contract pins.
#[verifier::loop_isolation(false)]
#[verifier::rlimit(60)]
pub fn parse_value(s: &Vec<u8>, start: usize) -> (r: Result<(JsonValue, usize), ()>)
    requires
        start <= s@.len(),
    ensures
        r matches Ok(p) ==> start < p.1 <= s@.len(),
        forall|g: ValueModel| #[trigger] val_at(g, s@, start as int)
            ==> (r matches Ok(p) && p.0.deep_view() == g && p.1 == start + ser_value(g).len()),
    decreases s@.len() - start,
{
    let i = skip_ws(s, start);
    proof {
        assert forall|g: ValueModel| #[trigger] val_at(g, s@, start as int)
            implies i == start && val_at(g, s@, i as int)
                && i + ser_value(g).len() <= s@.len() && ser_value(g).len() >= 1
                && i < s@.len() && s@[i as int] == ser_value(g)[0] by {
            lemma_ser_value_first(g);
            assert(s@.subrange(start as int, start + ser_value(g).len())[0]
                == s@[start as int]);
            assert(!is_ws(s@[start as int]));
            assert(i == start);
        }
    }
    if i >= s.len() {
        return Err(());
    }
    let b = s[i];
    if b == 0x6e {
        // null
        proof {
            assert forall|g: ValueModel| #[trigger] val_at(g, s@, i as int) implies g is Null
                && i + 4 <= s@.len() && s@[i + 1] == 0x75 && s@[i + 2] == 0x6c
                && s@[i + 3] == 0x6c by {
                lemma_ser_value_first(g);
                assert(s@.subrange(i as int, i + 4)[1] == s@[i + 1]);
                assert(s@.subrange(i as int, i + 4)[2] == s@[i + 2]);
                assert(s@.subrange(i as int, i + 4)[3] == s@[i + 3]);
            }
        }
        if s.len() - i >= 4 && s[i + 1] == 0x75 && s[i + 2] == 0x6c && s[i + 3] == 0x6c {
            return Ok((JsonValue::Null, i + 4));
        }
        return Err(());
    } else if b == 0x74 {
        // true
        proof {
            assert forall|g: ValueModel| #[trigger] val_at(g, s@, i as int)
                implies g == ValueModel::Bool(true) && i + 4 <= s@.len() && s@[i + 1] == 0x72
                && s@[i + 2] == 0x75 && s@[i + 3] == 0x65 by {
                lemma_ser_value_first(g);
                assert(s@.subrange(i as int, i + 4)[1] == s@[i + 1]);
                assert(s@.subrange(i as int, i + 4)[2] == s@[i + 2]);
                assert(s@.subrange(i as int, i + 4)[3] == s@[i + 3]);
            }
        }
        if s.len() - i >= 4 && s[i + 1] == 0x72 && s[i + 2] == 0x75 && s[i + 3] == 0x65 {
            return Ok((JsonValue::Bool(true), i + 4));
        }
        return Err(());
    } else if b == 0x66 {
        // false
        proof {
            assert forall|g: ValueModel| #[trigger] val_at(g, s@, i as int)
                implies g == ValueModel::Bool(false) && i + 5 <= s@.len() && s@[i + 1] == 0x61
                && s@[i + 2] == 0x6c && s@[i + 3] == 0x73 && s@[i + 4] == 0x65 by {
                lemma_ser_value_first(g);
                assert(s@.subrange(i as int, i + 5)[1] == s@[i + 1]);
                assert(s@.subrange(i as int, i + 5)[2] == s@[i + 2]);
                assert(s@.subrange(i as int, i + 5)[3] == s@[i + 3]);
                assert(s@.subrange(i as int, i + 5)[4] == s@[i + 4]);
            }
        }
        if s.len() - i >= 5 && s[i + 1] == 0x61 && s[i + 2] == 0x6c && s[i + 3] == 0x73
            && s[i + 4] == 0x65 {
            return Ok((JsonValue::Bool(false), i + 5));
        }
        return Err(());
    } else if b == B_QUOTE {
        proof {
            assert forall|g: ValueModel| #[trigger] val_at(g, s@, i as int) implies g is Str
                && str_body_at(g->Str_0, s@, i as int + 1)
                && ser_value(g).len() == ser_str_body(g->Str_0).len() + 2 by {
                lemma_ser_value_first(g);
                let c = g->Str_0;
                assert(ser_value(g) =~= seq![B_QUOTE] + (ser_str_body(c) + seq![B_QUOTE]));
                lemma_match_at_concat(seq![B_QUOTE], ser_str_body(c) + seq![B_QUOTE], s@,
                    i as int);
                lemma_match_at_concat(ser_str_body(c), seq![B_QUOTE], s@, i as int + 1);
                lemma_match_at_byte(B_QUOTE, s@, i + 1 + ser_str_body(c).len());
            }
        }
        match parse_string_body(s, i + 1) {
            Ok(p) => Ok((JsonValue::Str(p.0), p.1)),
            Err(_) => Err(()),
        }
    } else if b == B_MINUS || (0x30 <= b && b <= 0x39) {
        proof {
            assert forall|g: ValueModel| #[trigger] val_at(g, s@, i as int) implies g is Int
                && int_at(g->Int_0, s@, i as int) by {
                lemma_ser_value_first(g);
            }
        }
        match parse_int(s, i) {
            Ok(p) => Ok((JsonValue::Int(p.0), p.1)),
            Err(_) => Err(()),
        }
    } else if b == B_LBRACKET {
        proof {
            assert forall|g: ValueModel| #[trigger] val_at(g, s@, i as int) implies g is Arr
                && i + 1 < s@.len() && !is_ws(s@[i + 1])
                && (g->Arr_0.len() == 0 ==> s@[i + 1] == B_RBRACKET
                    && ser_value(g).len() == 2)
                && (g->Arr_0.len() > 0 ==> s@[i + 1] != B_RBRACKET) by {
                lemma_ser_value_first(g);
                let m = g->Arr_0;
                if m.len() == 0 {
                    assert(ser_value(g) =~= seq![B_LBRACKET, B_RBRACKET]);
                    assert(s@.subrange(i as int, i + 2)[1] == s@[i + 1]);
                } else {
                    lemma_arr_elem(m, s@, i as int, 0);
                    assert(m.take(0) =~= Seq::<ValueModel>::empty());
                    assert(elem_pos(m, 0, i as int) == i + 1);
                    let v0 = ser_value(m[0]);
                    assert(s@.subrange(i + 1, i + 1 + v0.len())[0] == s@[i + 1]);
                    lemma_ser_value_first(m[0]);
                }
            }
        }
        if i + 1 >= s.len() {
            return Err(());
        }
        let ja = skip_ws(s, i + 1);
        proof {
            assert forall|g: ValueModel| #[trigger] val_at(g, s@, i as int)
                implies ja == i + 1 by {}
        }
        if ja >= s.len() {
            return Err(());
        }
        if s[ja] == B_RBRACKET {
            let items: Vec<JsonValue> = Vec::new();
            proof {
                assert(deep_view_seq(items@) =~= Seq::<ValueModel>::empty());
                assert forall|g: ValueModel| #[trigger] val_at(g, s@, i as int)
                    implies JsonValue::Arr(items).deep_view() == g
                    && ja + 1 == i + ser_value(g).len() by {
                    assert(g->Arr_0 =~= Seq::<ValueModel>::empty());
                }
            }
            return Ok((JsonValue::Arr(items), ja + 1));
        }
        let mut items: Vec<JsonValue> = Vec::new();
        let mut j: usize = ja;
        proof {
            assert forall|g: ValueModel| #[trigger] val_at(g, s@, i as int)
                implies g is Arr && items@.len() < g->Arr_0.len()
                && j == elem_pos(g->Arr_0, items@.len() as int, i as int)
                && deep_view_seq(items@) == g->Arr_0.take(items@.len() as int) by {
                assert(g->Arr_0.take(0) =~= Seq::<ValueModel>::empty());
                assert(deep_view_seq(items@) =~= Seq::<ValueModel>::empty());
                assert(ser_elems(g->Arr_0.take(0)).len() == 0);
            }
        }
        loop
            invariant
                i + 1 <= j <= s@.len(),
                forall|g: ValueModel| #[trigger] val_at(g, s@, i as int)
                    ==> g is Arr && items@.len() < g->Arr_0.len()
                        && j == elem_pos(g->Arr_0, items@.len() as int, i as int)
                        && deep_view_seq(items@) == g->Arr_0.take(items@.len() as int),
            decreases s@.len() - j,
        {
            let ghost k = items@.len() as int;
            let ghost items0 = items@;
            proof {
                assert forall|g: ValueModel| #[trigger] val_at(g, s@, i as int)
                    implies val_at(g->Arr_0[k], s@, j as int)
                    && elem_pos(g->Arr_0, k, i as int) + ser_value(g->Arr_0[k]).len()
                        < s@.len() by {
                    lemma_arr_elem(g->Arr_0, s@, i as int, k);
                }
            }
            match parse_value(s, j) {
                Err(_) => {
                    return Err(());
                },
                Ok((v, j2)) => {
                    items.push(v);
                    proof {
                        assert(items@ == items0.push(v));
                        assert(items@.drop_last() =~= items0);
                        assert forall|g: ValueModel| #[trigger] val_at(g, s@, i as int)
                            implies v.deep_view() == g->Arr_0[k]
                            && j2 == j + ser_value(g->Arr_0[k]).len()
                            && deep_view_seq(items@) == g->Arr_0.take(k + 1)
                            && j2 < s@.len() by {
                            lemma_arr_elem(g->Arr_0, s@, i as int, k);
                            assert(deep_view_seq(items@)
                                == deep_view_seq(items0).push(v.deep_view()));
                            assert(g->Arr_0.take(k + 1)
                                =~= g->Arr_0.take(k).push(g->Arr_0[k]));
                        }
                    }
                    let j2w = skip_ws(s, j2);
                    proof {
                        assert forall|g: ValueModel| #[trigger] val_at(g, s@, i as int)
                            implies j2w == j2 by {
                            lemma_arr_elem(g->Arr_0, s@, i as int, k);
                            assert(!is_ws(s@[j2 as int]));
                        }
                    }
                    if j2w >= s.len() {
                        return Err(());
                    }
                    let c2 = s[j2w];
                    if c2 == B_RBRACKET {
                        proof {
                            assert forall|g: ValueModel| #[trigger] val_at(g, s@, i as int)
                                implies JsonValue::Arr(items).deep_view() == g
                                && j2w + 1 == i + ser_value(g).len() by {
                                lemma_arr_elem(g->Arr_0, s@, i as int, k);
                                if k + 1 < g->Arr_0.len() {
                                    assert(s@[j2 as int] == B_COMMA);
                                    assert(false);
                                }
                                assert(g->Arr_0.take(k + 1) =~= g->Arr_0);
                            }
                        }
                        return Ok((JsonValue::Arr(items), j2w + 1));
                    } else if c2 == B_COMMA {
                        proof {
                            assert forall|g: ValueModel| #[trigger] val_at(g, s@, i as int)
                                implies items@.len() < g->Arr_0.len()
                                && j2w + 1 == elem_pos(g->Arr_0, k + 1, i as int) by {
                                lemma_arr_elem(g->Arr_0, s@, i as int, k);
                                if k + 1 == g->Arr_0.len() {
                                    assert(s@[j2 as int] == B_RBRACKET);
                                    assert(false);
                                }
                            }
                        }
                        j = j2w + 1;
                    } else {
                        proof {
                            assert forall|g: ValueModel| !val_at(g, s@, i as int) by {
                                if val_at(g, s@, i as int) {
                                    lemma_arr_elem(g->Arr_0, s@, i as int, k);
                                }
                            }
                        }
                        return Err(());
                    }
                },
            }
        }
    } else if b == B_LBRACE {
        proof {
            assert forall|g: ValueModel| #[trigger] val_at(g, s@, i as int) implies g is Obj
                && i + 1 < s@.len() && !is_ws(s@[i + 1])
                && (g->Obj_0.len() == 0 ==> s@[i + 1] == B_RBRACE && ser_value(g).len() == 2)
                && (g->Obj_0.len() > 0 ==> s@[i + 1] == B_QUOTE) by {
                lemma_ser_value_first(g);
                let m = g->Obj_0;
                if m.len() == 0 {
                    assert(ser_value(g) =~= seq![B_LBRACE, B_RBRACE]);
                    assert(s@.subrange(i as int, i + 2)[1] == s@[i + 1]);
                } else {
                    lemma_obj_member(m, s@, i as int, 0);
                    assert(m.take(0) =~= Seq::<(Seq<u8>, ValueModel)>::empty());
                    assert(member_pos(m, 0, i as int) == i + 1);
                }
            }
        }
        if i + 1 >= s.len() {
            return Err(());
        }
        let ja = skip_ws(s, i + 1);
        proof {
            assert forall|g: ValueModel| #[trigger] val_at(g, s@, i as int)
                implies ja == i + 1 by {}
        }
        if ja >= s.len() {
            return Err(());
        }
        if s[ja] == B_RBRACE {
            let pairs: Vec<(Vec<u8>, JsonValue)> = Vec::new();
            proof {
                assert(deep_view_pairs(pairs@) =~= Seq::<(Seq<u8>, ValueModel)>::empty());
                assert forall|g: ValueModel| #[trigger] val_at(g, s@, i as int)
                    implies JsonValue::Obj(pairs).deep_view() == g
                    && ja + 1 == i + ser_value(g).len() by {
                    assert(g->Obj_0 =~= Seq::<(Seq<u8>, ValueModel)>::empty());
                }
            }
            return Ok((JsonValue::Obj(pairs), ja + 1));
        }
        let mut pairs: Vec<(Vec<u8>, JsonValue)> = Vec::new();
        let mut j: usize = ja;
        proof {
            assert forall|g: ValueModel| #[trigger] val_at(g, s@, i as int)
                implies g is Obj && pairs@.len() < g->Obj_0.len()
                && j == member_pos(g->Obj_0, pairs@.len() as int, i as int)
                && deep_view_pairs(pairs@) == g->Obj_0.take(pairs@.len() as int) by {
                assert(g->Obj_0.take(0) =~= Seq::<(Seq<u8>, ValueModel)>::empty());
                assert(deep_view_pairs(pairs@) =~= Seq::<(Seq<u8>, ValueModel)>::empty());
                assert(ser_members(g->Obj_0.take(0)).len() == 0);
            }
        }
        loop
            invariant
                i + 1 <= j <= s@.len(),
                forall|g: ValueModel| #[trigger] val_at(g, s@, i as int)
                    ==> g is Obj && pairs@.len() < g->Obj_0.len()
                        && j == member_pos(g->Obj_0, pairs@.len() as int, i as int)
                        && deep_view_pairs(pairs@) == g->Obj_0.take(pairs@.len() as int),
            decreases s@.len() - j,
        {
            let ghost k = pairs@.len() as int;
            let ghost pairs0 = pairs@;
            proof {
                assert forall|g: ValueModel| #[trigger] val_at(g, s@, i as int)
                    implies s@[j as int] == B_QUOTE && j < s@.len()
                    && str_body_at(g->Obj_0[k].0, s@, j as int + 1) by {
                    lemma_obj_member(g->Obj_0, s@, i as int, k);
                }
            }
            let jk = skip_ws(s, j);
            proof {
                assert forall|g: ValueModel| #[trigger] val_at(g, s@, i as int)
                    implies jk == j by {
                    assert(!is_ws(s@[j as int]));
                }
            }
            if jk >= s.len() {
                return Err(());
            }
            if s[jk] != B_QUOTE {
                return Err(());
            }
            match parse_string_body(s, jk + 1) {
                Err(_) => {
                    return Err(());
                },
                Ok((key, j2)) => {
                    proof {
                        assert forall|g: ValueModel| #[trigger] val_at(g, s@, i as int)
                            implies key@ == g->Obj_0[k].0
                            && j2 == j + ser_string(g->Obj_0[k].0).len()
                            && j2 < s@.len() && s@[j2 as int] == B_COLON
                            && val_at(g->Obj_0[k].1, s@, j2 as int + 1) by {
                            lemma_obj_member(g->Obj_0, s@, i as int, k);
                        }
                    }
                    let j2w = skip_ws(s, j2);
                    proof {
                        assert forall|g: ValueModel| #[trigger] val_at(g, s@, i as int)
                            implies j2w == j2 by {
                            assert(!is_ws(s@[j2 as int]));
                        }
                    }
                    if j2w >= s.len() {
                        return Err(());
                    }
                    if s[j2w] != B_COLON {
                        return Err(());
                    }
                    match parse_value(s, j2w + 1) {
                        Err(_) => {
                            return Err(());
                        },
                        Ok((v, j3)) => {
                            pairs.push((key, v));
                            proof {
                                assert(pairs@.drop_last() =~= pairs0);
                                assert forall|g: ValueModel| #[trigger] val_at(g, s@, i as int)
                                    implies v.deep_view() == g->Obj_0[k].1
                                    && j3 == j2 + 1 + ser_value(g->Obj_0[k].1).len()
                                    && deep_view_pairs(pairs@) == g->Obj_0.take(k + 1)
                                    && j3 < s@.len() by {
                                    lemma_obj_member(g->Obj_0, s@, i as int, k);
                                    assert(deep_view_pairs(pairs@) == deep_view_pairs(
                                        pairs0).push((key@, v.deep_view())));
                                    assert(g->Obj_0.take(k + 1)
                                        =~= g->Obj_0.take(k).push(g->Obj_0[k]));
                                }
                            }
                            let j3w = skip_ws(s, j3);
                            proof {
                                assert forall|g: ValueModel|
                                    #[trigger] val_at(g, s@, i as int)
                                    implies j3w == j3 by {
                                    lemma_obj_member(g->Obj_0, s@, i as int, k);
                                    assert(!is_ws(s@[j3 as int]));
                                }
                            }
                            if j3w >= s.len() {
                                return Err(());
                            }
                            let c3 = s[j3w];
                            if c3 == B_RBRACE {
                                proof {
                                    assert forall|g: ValueModel|
                                        #[trigger] val_at(g, s@, i as int)
                                        implies JsonValue::Obj(pairs).deep_view() == g
                                        && j3w + 1 == i + ser_value(g).len() by {
                                        lemma_obj_member(g->Obj_0, s@, i as int, k);
                                        if k + 1 < g->Obj_0.len() {
                                            assert(s@[j3 as int] == B_COMMA);
                                            assert(false);
                                        }
                                        assert(g->Obj_0.take(k + 1) =~= g->Obj_0);
                                    }
                                }
                                return Ok((JsonValue::Obj(pairs), j3w + 1));
                            } else if c3 == B_COMMA {
                                proof {
                                    assert forall|g: ValueModel|
                                        #[trigger] val_at(g, s@, i as int)
                                        implies pairs@.len() < g->Obj_0.len()
                                        && j3w + 1 == member_pos(g->Obj_0, k + 1, i as int) by {
                                        lemma_obj_member(g->Obj_0, s@, i as int, k);
                                        if k + 1 == g->Obj_0.len() {
                                            assert(s@[j3 as int] == B_RBRACE);
                                            assert(false);
                                        }
                                    }
                                }
                                j = j3w + 1;
                            } else {
                                proof {
                                    assert forall|g: ValueModel| !val_at(g, s@, i as int) by {
                                        if val_at(g, s@, i as int) {
                                            lemma_obj_member(g->Obj_0, s@, i as int, k);
                                        }
                                    }
                                }
                                return Err(());
                            }
                        },
                    }
                },
            }
        }
    } else {
        proof {
            assert forall|g: ValueModel| !val_at(g, s@, i as int) by {
                if val_at(g, s@, i as int) {
                    lemma_ser_value_first(g);
                }
            }
        }
        Err(())
    }
}

} // verus!
