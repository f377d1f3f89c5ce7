//! The structured values carried by the protocol.
//!
//! Requests and responses carry arbitrary structured payloads (`params`,
//! `result`, `data`). They are modeled as a tagged union of null, boolean,
//! 64-bit integer, string, array, and map. Text is held as UTF-8 bytes,
//! which is also how it travels on the wire.

use vstd::prelude::*;

verus! {

/// A structured protocol value: the payload type for `params`, `result`,
/// `data`, and the opaque request `id`.
pub enum JsonValue {
    Null,
    Bool(bool),
    Int(i64),
    Str(Vec<u8>),
    Arr(Vec<JsonValue>),
    Obj(Vec<(Vec<u8>, JsonValue)>),
}

/// The mathematical model of a [`JsonValue`]: the same tree over `Seq` and
/// unbounded integers. Contracts speak of this type.
pub enum ValueModel {
    Null,
    Bool(bool),
    Int(int),
    Str(Seq<u8>),
    Arr(Seq<ValueModel>),
    Obj(Seq<(Seq<u8>, ValueModel)>),
}

impl JsonValue {
    /// The model of this value.
    pub open spec fn deep_view(&self) -> ValueModel
        decreases *self,
    {
        match self {
            JsonValue::Null => ValueModel::Null,
            JsonValue::Bool(b) => ValueModel::Bool(*b),
            JsonValue::Int(i) => ValueModel::Int(*i as int),
            JsonValue::Str(s) => ValueModel::Str(s@),
            JsonValue::Arr(items) => ValueModel::Arr(deep_view_seq(items@)),
            JsonValue::Obj(pairs) => ValueModel::Obj(deep_view_pairs(pairs@)),
        }
    }
}

/// The models of a sequence of values, elementwise.
pub open spec fn deep_view_seq(s: Seq<JsonValue>) -> Seq<ValueModel>
    decreases s,
{
    if s.len() == 0 {
        Seq::empty()
    } else {
        deep_view_seq(s.drop_last()).push(s.last().deep_view())
    }
}

/// The models of a sequence of key/value pairs, elementwise.
pub open spec fn deep_view_pairs(s: Seq<(Vec<u8>, JsonValue)>) -> Seq<(Seq<u8>, ValueModel)>
    decreases s,
{
    if s.len() == 0 {
        Seq::empty()
    } else {
        deep_view_pairs(s.drop_last()).push((s.last().0@, s.last().1.deep_view()))
    }
}

/// `deep_view_seq` maps elementwise: same length, model at each index.
pub proof fn lemma_deep_view_seq_index(s: Seq<JsonValue>)
    ensures
        deep_view_seq(s).len() == s.len(),
        forall|i: int| 0 <= i < s.len() ==> #[trigger] deep_view_seq(s)[i] == s[i].deep_view(),
    decreases s.len(),
{
    if s.len() > 0 {
        lemma_deep_view_seq_index(s.drop_last());
    }
}

/// Byte-for-byte equality of two byte strings.
pub fn bytes_eq(a: &Vec<u8>, b: &Vec<u8>) -> (r: bool)
    ensures
        r == (a@ == b@),
{
    if a.len() != b.len() {
        return false;
    }
    let mut i: usize = 0;
    while i < a.len()
        invariant
            i <= a@.len(),
            a@.len() == b@.len(),
            forall|k: int| 0 <= k < i ==> a@[k] == b@[k],
        decreases a@.len() - i,
    {
        if a[i] != b[i] {
            return false;
        }
        i = i + 1;
    }
    proof {
        assert(a@ =~= b@);
    }
    true
}

/// A copy of a byte string.
pub fn clone_bytes(s: &Vec<u8>) -> (r: Vec<u8>)
    ensures
        r@ == s@,
{
    let mut r: Vec<u8> = Vec::new();
    let mut i: usize = 0;
    while i < s.len()
        invariant
            i <= s@.len(),
            r@ == s@.take(i as int),
        decreases s@.len() - i,
    {
        r.push(s[i]);
        proof {
            assert(r@ =~= s@.take(i as int + 1));
        }
        i = i + 1;
    }
    proof {
        assert(s@.take(s@.len() as int) =~= s@);
    }
    r
}

impl JsonValue {
    /// A structural copy: its model is the same.
    #[verifier::loop_isolation(false)]
    pub fn deep_clone(&self) -> (r: JsonValue)
        ensures
            r.deep_view() == self.deep_view(),
        decreases *self,
    {
        match self {
            JsonValue::Null => JsonValue::Null,
            JsonValue::Bool(b) => JsonValue::Bool(*b),
            JsonValue::Int(n) => JsonValue::Int(*n),
            JsonValue::Str(s) => JsonValue::Str(clone_bytes(s)),
            JsonValue::Arr(items) => {
                let mut out: Vec<JsonValue> = Vec::new();
                let mut k: usize = 0;
                while k < items.len()
                    invariant
                        k <= items@.len(),
                        out@.len() == k,
                        forall|l: int| 0 <= l < k
                            ==> #[trigger] out@[l].deep_view() == items@[l].deep_view(),
                    decreases items@.len() - k,
                {
                    proof {
                        assert(*items == self->Arr_0);
                        assert(decreases_to!(*self => self->Arr_0));
                        assert(decreases_to!(self->Arr_0 => self->Arr_0@));
                        assert(decreases_to!(self->Arr_0@ => self->Arr_0@[k as int]));
                        assert(decreases_to!(*self => items@[k as int]));
                    }
                    out.push(items[k].deep_clone());
                    k = k + 1;
                }
                proof {
                    lemma_deep_view_seq_index(out@);
                    lemma_deep_view_seq_index(items@);
                    assert(deep_view_seq(out@) =~= deep_view_seq(items@));
                }
                JsonValue::Arr(out)
            },
            JsonValue::Obj(pairs) => {
                let mut out: Vec<(Vec<u8>, JsonValue)> = Vec::new();
                let mut k: usize = 0;
                while k < pairs.len()
                    invariant
                        k <= pairs@.len(),
                        out@.len() == k,
                        forall|l: int| 0 <= l < k
                            ==> #[trigger] out@[l].0@ == pairs@[l].0@
                                && out@[l].1.deep_view() == pairs@[l].1.deep_view(),
                    decreases pairs@.len() - k,
                {
                    proof {
                        assert(*pairs == self->Obj_0);
                        assert(decreases_to!(*self => self->Obj_0));
                        assert(decreases_to!(self->Obj_0 => self->Obj_0@));
                        assert(decreases_to!(self->Obj_0@ => self->Obj_0@[k as int]));
                        assert(decreases_to!(self->Obj_0@[k as int]
                            => self->Obj_0@[k as int].1));
                        assert(decreases_to!(*self => pairs@[k as int].1));
                    }
                    let key = clone_bytes(&pairs[k].0);
                    let v = pairs[k].1.deep_clone();
                    out.push((key, v));
                    k = k + 1;
                }
                proof {
                    lemma_deep_view_pairs_index(out@);
                    lemma_deep_view_pairs_index(pairs@);
                    assert(deep_view_pairs(out@) =~= deep_view_pairs(pairs@));
                }
                JsonValue::Obj(out)
            },
        }
    }
}

/// `deep_view_pairs` maps elementwise: same length, key bytes and value model
/// at each index.
pub proof fn lemma_deep_view_pairs_index(s: Seq<(Vec<u8>, JsonValue)>)
    ensures
        deep_view_pairs(s).len() == s.len(),
        forall|i: int| 0 <= i < s.len()
            ==> #[trigger] deep_view_pairs(s)[i] == (s[i].0@, s[i].1.deep_view()),
    decreases s.len(),
{
    if s.len() > 0 {
        lemma_deep_view_pairs_index(s.drop_last());
    }
}

} // verus!
