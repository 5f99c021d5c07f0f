//! The value model: the tree a successful parse produces.
//!
//! `Text` keeps the dual string representation (zero-copy borrowed view or
//! owned decoded buffer) behind one read-only interface.  `GText` and
//! `GValue` are the mathematical models of `Text` and `JsonValue`; equality
//! of values goes through [`similar`], which compares content only and is
//! blind to the borrowed-versus-owned choice.

use vstd::prelude::*;

verus! {

broadcast use
    vstd::std_specs::vec::axiom_vec_decreases_to_view,
    vstd::std_specs::vec::axiom_vec_index_decreases,
    vstd::seq::axiom_seq_index_decreases,
    vstd::seq::axiom_seq_subrange_decreases;

/// A parsed string: either a zero-copy view into the input buffer or an
/// owned buffer produced by escape decoding.
#[derive(Debug)]
pub enum Text<'a> {
    Borrowed(&'a [u8]),
    Owned(Vec<u8>),
}

/// Model of a `Text`: its byte content plus whether it is a zero-copy view.
pub struct GText {
    pub bytes: Seq<u8>,
    pub zero_copy: bool,
}

impl<'a> Text<'a> {
    /// The byte content, independent of representation.
    pub open spec fn bytes(&self) -> Seq<u8> {
        match self {
            Text::Borrowed(s) => s@,
            Text::Owned(v) => v@,
        }
    }

    /// Whether this text is a zero-copy view into the input buffer.
    pub open spec fn is_borrowed(&self) -> bool {
        self is Borrowed
    }

    pub open spec fn model(&self) -> GText {
        GText { bytes: self.bytes(), zero_copy: self.is_borrowed() }
    }

    /// Read the content as a byte slice.
    pub fn as_bytes(&self) -> (r: &[u8])
        ensures
            r@ == self.bytes(),
    {
        match self {
            Text::Borrowed(s) => s,
            Text::Owned(v) => v.as_slice(),
        }
    }
}

/// A parsed JSON value.
///
/// A number keeps the exact byte span it was lexed from, so the host decides
/// how to convert it; two numbers compare equal exactly when their source
/// texts do.  An object is a sequence of key-value pairs with unique keys;
/// re-insertion of a duplicate key during parsing overwrites the prior value.
/// An array preserves element order.
#[derive(Debug)]
pub enum JsonValue<'a> {
    String(Text<'a>),
    Number(&'a [u8]),
    Boolean(bool),
    Object(Vec<(Text<'a>, JsonValue<'a>)>),
    Array(Vec<JsonValue<'a>>),
    Null,
}

/// Model of a `JsonValue`.
pub enum GValue {
    Str(GText),
    Num(Seq<u8>),
    Bool(bool),
    Obj(Seq<(GText, GValue)>),
    Arr(Seq<GValue>),
    Null,
}

impl<'a> JsonValue<'a> {
    pub open spec fn model(&self) -> GValue
        decreases self,
    {
        match self {
            JsonValue::String(t) => GValue::Str(t.model()),
            JsonValue::Number(n) => GValue::Num(n@),
            JsonValue::Boolean(b) => GValue::Bool(*b),
            JsonValue::Object(pairs) => GValue::Obj(model_pairs(pairs@)),
            JsonValue::Array(elems) => GValue::Arr(model_elems(elems@)),
            JsonValue::Null => GValue::Null,
        }
    }
}

pub open spec fn model_pairs<'a>(pairs: Seq<(Text<'a>, JsonValue<'a>)>) -> Seq<(GText, GValue)>
    decreases pairs,
{
    if pairs.len() == 0 {
        Seq::empty()
    } else {
        model_pairs(pairs.drop_last()).push(
            (pairs.last().0.model(), pairs.last().1.model()),
        )
    }
}

pub open spec fn model_elems<'a>(elems: Seq<JsonValue<'a>>) -> Seq<GValue>
    decreases elems,
{
    if elems.len() == 0 {
        Seq::empty()
    } else {
        model_elems(elems.drop_last()).push(elems.last().model())
    }
}

pub proof fn lemma_model_pairs<'a>(pairs: Seq<(Text<'a>, JsonValue<'a>)>)
    ensures
        model_pairs(pairs).len() == pairs.len(),
        forall|i: int|
            0 <= i < pairs.len() ==> #[trigger] model_pairs(pairs)[i]
                == (pairs[i].0.model(), pairs[i].1.model()),
    decreases pairs,
{
    if pairs.len() > 0 {
        lemma_model_pairs(pairs.drop_last());
    }
}

pub proof fn lemma_model_elems<'a>(elems: Seq<JsonValue<'a>>)
    ensures
        model_elems(elems).len() == elems.len(),
        forall|i: int|
            0 <= i < elems.len() ==> #[trigger] model_elems(elems)[i] == elems[i].model(),
    decreases elems,
{
    if elems.len() > 0 {
        lemma_model_elems(elems.drop_last());
    }
}

/// Content equality of value models: blind to the zero-copy flag of every
/// text, and otherwise structural.
pub open spec fn similar(m1: GValue, m2: GValue) -> bool
    decreases m1,
{
    match (m1, m2) {
        (GValue::Str(t1), GValue::Str(t2)) => t1.bytes == t2.bytes,
        (GValue::Num(n1), GValue::Num(n2)) => n1 == n2,
        (GValue::Bool(b1), GValue::Bool(b2)) => b1 == b2,
        (GValue::Obj(p1), GValue::Obj(p2)) => p1.len() == p2.len() && (forall|i: int|
            #![auto]
            0 <= i < p1.len() ==> p1[i].0.bytes == p2[i].0.bytes && similar(p1[i].1, p2[i].1)),
        (GValue::Arr(e1), GValue::Arr(e2)) => e1.len() == e2.len() && (forall|i: int|
            #![auto]
            0 <= i < e1.len() ==> similar(e1[i], e2[i])),
        (GValue::Null, GValue::Null) => true,
        _ => false,
    }
}

pub proof fn lemma_similar_reflexive(m: GValue)
    ensures
        similar(m, m),
    decreases m,
{
    match m {
        GValue::Obj(p) => {
            assert forall|i: int| #![auto] 0 <= i < p.len() implies p[i].0.bytes == p[i].0.bytes
                && similar(p[i].1, p[i].1) by {
                lemma_similar_reflexive(p[i].1);
            }
        },
        GValue::Arr(e) => {
            assert forall|i: int| #![auto] 0 <= i < e.len() implies similar(e[i], e[i]) by {
                lemma_similar_reflexive(e[i]);
            }
        },
        _ => {},
    }
}

/// Compare two byte slices for content equality.
pub fn bytes_equal(a: &[u8], b: &[u8]) -> (r: bool)
    ensures
        r == (a@ == b@),
{
    if a.len() != b.len() {
        return false;
    }
    let mut i: usize = 0;
    while i < a.len()
        invariant
            a@.len() == b@.len(),
            0 <= i <= a@.len(),
            forall|j: int| 0 <= j < i ==> a@[j] == b@[j],
        decreases a@.len() - i,
    {
        if *vstd::slice::slice_index_get(a, i) != *vstd::slice::slice_index_get(b, i) {
            return false;
        }
        i = i + 1;
    }
    proof {
        assert(a@ =~= b@);
    }
    true
}

/// Structural equality of two values, blind to text representation.
pub fn values_equal<'a>(a: &JsonValue<'a>, b: &JsonValue<'a>) -> (r: bool)
    ensures
        r == similar(a.model(), b.model()),
    decreases a,
{
    match (a, b) {
        (JsonValue::String(t1), JsonValue::String(t2)) => bytes_equal(
            t1.as_bytes(),
            t2.as_bytes(),
        ),
        (JsonValue::Number(n1), JsonValue::Number(n2)) => bytes_equal(n1, n2),
        (JsonValue::Boolean(b1), JsonValue::Boolean(b2)) => b1 == b2,
        (JsonValue::Null, JsonValue::Null) => true,
        (JsonValue::Object(p1), JsonValue::Object(p2)) => {
            proof {
                lemma_model_pairs(p1@);
                lemma_model_pairs(p2@);
            }
            if p1.len() != p2.len() {
                return false;
            }
            let mut i: usize = 0;
            while i < p1.len()
                invariant
                    p1@.len() == p2@.len(),
                    0 <= i <= p1@.len(),
                    a == JsonValue::Object(*p1) && b == JsonValue::Object(*p2),
                    forall|j: int|
                        #![auto]
                        0 <= j < i ==> model_pairs(p1@)[j].0.bytes == model_pairs(p2@)[j].0.bytes
                            && similar(model_pairs(p1@)[j].1, model_pairs(p2@)[j].1),
                decreases p1@.len() - i,
            {
                proof {
                    lemma_model_pairs(p1@);
                    lemma_model_pairs(p2@);
                }
                let keys_eq = bytes_equal(p1[i].0.as_bytes(), p2[i].0.as_bytes());
                let vals_eq = if keys_eq {
                    values_equal(&p1[i].1, &p2[i].1)
                } else {
                    false
                };
                if !(keys_eq && vals_eq) {
                    proof {
                        let gi = i as int;
                        assert(!(model_pairs(p1@)[gi].0.bytes == model_pairs(p2@)[gi].0.bytes
                            && similar(model_pairs(p1@)[gi].1, model_pairs(p2@)[gi].1)));
                    }
                    return false;
                }
                i = i + 1;
            }
            proof {
                lemma_model_pairs(p1@);
                lemma_model_pairs(p2@);
            }
            true
        },
        (JsonValue::Array(e1), JsonValue::Array(e2)) => {
            proof {
                lemma_model_elems(e1@);
                lemma_model_elems(e2@);
            }
            if e1.len() != e2.len() {
                return false;
            }
            let mut i: usize = 0;
            while i < e1.len()
                invariant
                    e1@.len() == e2@.len(),
                    0 <= i <= e1@.len(),
                    a == JsonValue::Array(*e1) && b == JsonValue::Array(*e2),
                    forall|j: int|
                        #![auto]
                        0 <= j < i ==> similar(model_elems(e1@)[j], model_elems(e2@)[j]),
                decreases e1@.len() - i,
            {
                proof {
                    lemma_model_elems(e1@);
                    lemma_model_elems(e2@);
                }
                let vals_eq = values_equal(&e1[i], &e2[i]);
                if !vals_eq {
                    proof {
                        let gi = i as int;
                        assert(!similar(model_elems(e1@)[gi], model_elems(e2@)[gi]));
                    }
                    return false;
                }
                i = i + 1;
            }
            proof {
                lemma_model_elems(e1@);
                lemma_model_elems(e2@);
            }
            true
        },
        _ => false,
    }
}

impl<'a> PartialEq for Text<'a> {
    fn eq(&self, other: &Text<'a>) -> (r: bool) {
        bytes_equal(self.as_bytes(), other.as_bytes())
    }
}

impl<'a> vstd::std_specs::cmp::PartialEqSpecImpl for Text<'a> {
    open spec fn obeys_eq_spec() -> bool {
        true
    }

    open spec fn eq_spec(&self, other: &Text<'a>) -> bool {
        self.bytes() == other.bytes()
    }
}

impl<'a> PartialEq for JsonValue<'a> {
    fn eq(&self, other: &JsonValue<'a>) -> (r: bool) {
        values_equal(self, other)
    }
}

impl<'a> vstd::std_specs::cmp::PartialEqSpecImpl for JsonValue<'a> {
    open spec fn obeys_eq_spec() -> bool {
        true
    }

    open spec fn eq_spec(&self, other: &JsonValue<'a>) -> bool {
        similar(self.model(), other.model())
    }
}

} // verus!
