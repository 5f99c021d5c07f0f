//! Laws: properties that hold for every input, stated and proved over the
//! spec-level grammar of [`crate::grammar`].

use vstd::prelude::*;

use crate::grammar::{
    has_backslash, insert_pair, key_index, lookup, spec_arr_items, spec_array, spec_expect,
    spec_obj_items, spec_object, spec_pair, spec_parse, spec_string, spec_value, string_body,
    unescape, unescaped, ws_count, BACKSLASH, COLON, COMMA, LBRACE, LBRACKET, QUOTE, RBRACE,
    RBRACKET,
};
use crate::json_value::{similar, GText, GValue, JsonValue};
use crate::parse_error::{char_at, GError};

verus! {

broadcast use vstd::seq::axiom_seq_index_decreases;

/// The string scan decodes exactly the escape sequences of the span between
/// the quotes, and the result is a zero-copy view if and only if no escape
/// was seen so far and none stands in the span.
proof fn lemma_string_body_decodes(input: Seq<u8>, pos: int, acc: Seq<u8>, escaped: bool)
    requires
        0 <= pos <= input.len(),
        string_body(input, pos, acc, escaped) is Ok,
    ensures
        string_body(input, pos, acc, escaped) matches Ok((t, p)) ==> {
            &&& pos < p <= input.len()
            &&& input[p - 1] == QUOTE
            &&& t.bytes == acc + unescape(input.subrange(pos, p - 1))
            &&& (t.zero_copy <==> !escaped && !has_backslash(input.subrange(pos, p - 1)))
        },
    decreases input.len() - pos,
{
    match string_body(input, pos, acc, escaped) {
        Err(_) => {},
        Ok((t, p)) => {
            let span = input.subrange(pos, p - 1);
            if input[pos] == QUOTE {
                assert(span =~= Seq::<u8>::empty());
                assert(acc + unescape(span) =~= acc);
                assert(!has_backslash(span));
            } else if input[pos] == BACKSLASH {
                let acc2 = acc.push(unescaped(input[pos + 1]));
                lemma_string_body_decodes(input, pos + 2, acc2, true);
                let rest = input.subrange(pos + 2, p - 1);
                assert(span.len() >= 2);
                assert(span[0] == BACKSLASH);
                assert(span[1] == input[pos + 1]);
                assert(span.skip(2) =~= rest);
                assert(t.bytes == acc2 + unescape(rest));
                assert(unescape(span) == seq![unescaped(span[1])] + unescape(rest));
                assert(acc2 + unescape(rest) =~= acc + unescape(span));
                assert(has_backslash(span));
            } else {
                let acc2 = acc.push(input[pos]);
                lemma_string_body_decodes(input, pos + 1, acc2, escaped);
                let rest = input.subrange(pos + 1, p - 1);
                assert(span.len() >= 1);
                assert(span[0] == input[pos]);
                assert(span[0] != BACKSLASH);
                assert(span.skip(1) =~= rest);
                assert(t.bytes == acc2 + unescape(rest));
                assert(unescape(span) == seq![span[0]] + unescape(rest));
                assert(acc2 + unescape(rest) =~= acc + unescape(span));
                assert(has_backslash(span) <==> has_backslash(rest)) by {
                    if has_backslash(rest) {
                        let i = choose|i: int| 0 <= i < rest.len() && rest[i] == BACKSLASH;
                        assert(span[i + 1] == BACKSLASH);
                    }
                    if has_backslash(span) {
                        let i = choose|i: int| 0 <= i < span.len() && span[i] == BACKSLASH;
                        assert(i != 0);
                        assert(rest[i - 1] == BACKSLASH);
                    }
                }
            }
        },
    }
}

/// Decoding a span without escapes is the identity.
proof fn lemma_unescape_identity(s: Seq<u8>)
    requires
        !has_backslash(s),
    ensures
        unescape(s) == s,
    decreases s.len(),
{
    if s.len() > 0 {
        assert(s[0] != BACKSLASH);
        assert(!has_backslash(s.skip(1))) by {
            if has_backslash(s.skip(1)) {
                let i = choose|i: int| 0 <= i < s.skip(1).len() && s.skip(1)[i] == BACKSLASH;
                assert(s[i + 1] == BACKSLASH);
            }
        }
        lemma_unescape_identity(s.skip(1));
        assert(seq![s[0]] + s.skip(1) =~= s);
    }
}

/// A string value whose source span contains no escape sequence parses to a
/// zero-copy view whose bytes equal the source span between the quotes,
/// byte for byte.
pub proof fn lemma_no_escape_is_zero_copy(input: Seq<u8>, pos: int)
    requires
        0 <= pos,
        spec_string(input, pos) is Ok,
    ensures
        spec_string(input, pos) matches Ok((t, p)) ==> {
            let span = input.subrange(pos + 1, p - 1);
            !has_backslash(span) ==> t.zero_copy && t.bytes == span
        },
{
    match spec_string(input, pos) {
        Err(_) => {},
        Ok((t, p)) => {
            lemma_string_body_decodes(input, pos + 1, Seq::empty(), false);
            let span = input.subrange(pos + 1, p - 1);
            if !has_backslash(span) {
                lemma_unescape_identity(span);
                assert(Seq::<u8>::empty() + span =~= span);
            }
        },
    }
}

/// A string value whose source span contains an escape sequence parses to an
/// owned (not zero-copy) text holding exactly the decoded bytes of the span.
pub proof fn lemma_escape_is_owned_and_decoded(input: Seq<u8>, pos: int)
    requires
        0 <= pos,
        spec_string(input, pos) is Ok,
    ensures
        spec_string(input, pos) matches Ok((t, p)) ==> {
            let span = input.subrange(pos + 1, p - 1);
            &&& t.bytes == unescape(span)
            &&& (has_backslash(span) ==> !t.zero_copy)
        },
{
    match spec_string(input, pos) {
        Err(_) => {},
        Ok((t, p)) => {
            lemma_string_body_decodes(input, pos + 1, Seq::empty(), false);
            let span = input.subrange(pos + 1, p - 1);
            assert(Seq::<u8>::empty() + unescape(span) =~= unescape(span));
        },
    }
}

/// Parsing is deterministic: any two value trees obtained by parsing the
/// same input are structurally equal (`v1 == v2`; equality ignores the
/// borrowed-versus-owned representation of each text).
pub proof fn lemma_parse_deterministic<'a, 'b>(
    input: Seq<u8>,
    v1: &JsonValue<'a>,
    v2: &JsonValue<'b>,
)
    requires
        spec_parse(input) is Ok,
        v1.model() == spec_parse(input)->Ok_0.0,
        v2.model() == spec_parse(input)->Ok_0.0,
    ensures
        similar(v1.model(), v2.model()),
{
    crate::json_value::lemma_similar_reflexive(v1.model());
}

/// Where `key_index` points, and what stands left of it.
pub proof fn lemma_key_index_props(pairs: Seq<(GText, GValue)>, key: Seq<u8>)
    ensures
        -1 <= key_index(pairs, key) < pairs.len(),
        key_index(pairs, key) >= 0 ==> pairs[key_index(pairs, key)].0.bytes == key,
        forall|j: int|
            0 <= j < pairs.len() && !(0 <= key_index(pairs, key) <= j)
                ==> (#[trigger] pairs[j]).0.bytes != key,
    decreases pairs.len(),
{
    if pairs.len() > 0 && pairs[0].0.bytes != key {
        lemma_key_index_props(pairs.drop_first(), key);
        assert forall|j: int|
            0 <= j < pairs.len() && !(0 <= key_index(pairs, key) <= j) implies (#[trigger] pairs[j]).0.bytes
            != key by {
            if j > 0 {
                assert(pairs.drop_first()[j - 1] == pairs[j]);
            }
        }
    }
}

/// Appending a pair does not move an existing key, and indexes a new key at
/// the end.
proof fn lemma_key_index_push(pairs: Seq<(GText, GValue)>, p: (GText, GValue), key: Seq<u8>)
    ensures
        key_index(pairs.push(p), key) == (if key_index(pairs, key) >= 0 {
            key_index(pairs, key)
        } else if p.0.bytes == key {
            pairs.len() as int
        } else {
            -1
        }),
    decreases pairs.len(),
{
    if pairs.len() == 0 {
        assert(pairs.push(p)[0] == p);
        assert(pairs.push(p).drop_first() =~= Seq::<(GText, GValue)>::empty());
        assert(key_index(Seq::<(GText, GValue)>::empty(), key) == -1);
    } else {
        assert(pairs.push(p)[0] == pairs[0]);
        assert(pairs.push(p).drop_first() =~= pairs.drop_first().push(p));
        lemma_key_index_push(pairs.drop_first(), p, key);
    }
}

/// `key_index` depends only on the key texts.
proof fn lemma_key_index_same_keys(s1: Seq<(GText, GValue)>, s2: Seq<(GText, GValue)>, key: Seq<u8>)
    requires
        s1.len() == s2.len(),
        forall|j: int| 0 <= j < s1.len() ==> (#[trigger] s1[j]).0.bytes == s2[j].0.bytes,
    ensures
        key_index(s1, key) == key_index(s2, key),
    decreases s1.len(),
{
    if s1.len() > 0 {
        assert forall|j: int|
            0 <= j < s1.drop_first().len() implies (#[trigger] s1.drop_first()[j]).0.bytes
            == s2.drop_first()[j].0.bytes by {
            assert(s1[j + 1].0.bytes == s2[j + 1].0.bytes);
        }
        lemma_key_index_same_keys(s1.drop_first(), s2.drop_first(), key);
    }
}

/// Duplicate object keys: the last write wins.  After inserting `v` under
/// `k`, looking the key up yields exactly `v`, and every other key is bound
/// as before.
pub proof fn lemma_insert_last_wins(pairs: Seq<(GText, GValue)>, k: GText, v: GValue)
    ensures
        lookup(insert_pair(pairs, k, v), k.bytes) == Some(v),
        forall|key2: Seq<u8>|
            key2 != k.bytes ==> #[trigger] lookup(insert_pair(pairs, k, v), key2) == lookup(
                pairs,
                key2,
            ),
{
    let i = key_index(pairs, k.bytes);
    lemma_key_index_props(pairs, k.bytes);
    let ins = insert_pair(pairs, k, v);
    if i < 0 {
        lemma_key_index_push(pairs, (k, v), k.bytes);
        assert(lookup(ins, k.bytes) == Some(v));
        assert forall|key2: Seq<u8>| key2 != k.bytes implies #[trigger] lookup(ins, key2)
            == lookup(pairs, key2) by {
            lemma_key_index_push(pairs, (k, v), key2);
            lemma_key_index_props(pairs, key2);
        }
    } else {
        assert forall|j: int| 0 <= j < pairs.len() implies (#[trigger] ins[j]).0.bytes
            == pairs[j].0.bytes by {}
        lemma_key_index_same_keys(ins, pairs, k.bytes);
        assert(lookup(ins, k.bytes) == Some(v));
        assert forall|key2: Seq<u8>| key2 != k.bytes implies #[trigger] lookup(ins, key2)
            == lookup(pairs, key2) by {
            lemma_key_index_same_keys(ins, pairs, key2);
            lemma_key_index_props(pairs, key2);
        }
    }
}

/// A double comma is rejected: after one comma and optional whitespace, a
/// second comma stands where a key must start, and the object parse fails
/// with an unexpected-character error there — no partial object is ever
/// returned, the whole parse yields only this error.
pub proof fn lemma_comma_where_key_must_start(
    input: Seq<u8>,
    pos: int,
    acc: Seq<(GText, GValue)>,
)
    requires
        0 <= pos < input.len(),
        input[pos] == COMMA,
    ensures
        spec_obj_items(input, pos, acc) == Err::<(Seq<(GText, GValue)>, int), GError>(
            char_at(pos, COMMA, seq![QUOTE]),
        ),
{
    assert(spec_pair(input, pos) == Err::<(GText, GValue, int), GError>(
        char_at(pos, COMMA, seq![QUOTE]),
    ));
}

/// Pairwise distinct key texts.
pub open spec fn distinct_keys(pairs: Seq<(GText, GValue)>) -> bool {
    forall|i: int, j: int|
        0 <= i < j < pairs.len() ==> (#[trigger] pairs[i]).0.bytes != (#[trigger] pairs[j]).0.bytes
}

/// Every object anywhere in the value has pairwise distinct keys.
pub open spec fn unique_keys(m: GValue) -> bool
    decreases m,
{
    match m {
        GValue::Obj(ps) => distinct_keys(ps) && (forall|i: int|
            0 <= i < ps.len() ==> unique_keys((#[trigger] ps[i]).1)),
        GValue::Arr(es) => forall|i: int| 0 <= i < es.len() ==> unique_keys(#[trigger] es[i]),
        _ => true,
    }
}

/// Inserting keeps keys distinct and every held value's objects well-formed.
proof fn lemma_insert_pair_unique(pairs: Seq<(GText, GValue)>, k: GText, v: GValue)
    requires
        distinct_keys(pairs),
        forall|i: int| 0 <= i < pairs.len() ==> unique_keys((#[trigger] pairs[i]).1),
        unique_keys(v),
    ensures
        distinct_keys(insert_pair(pairs, k, v)),
        forall|i: int|
            0 <= i < insert_pair(pairs, k, v).len() ==> unique_keys(
                (#[trigger] insert_pair(pairs, k, v)[i]).1,
            ),
{
    lemma_key_index_props(pairs, k.bytes);
    let ki = key_index(pairs, k.bytes);
    let ins = insert_pair(pairs, k, v);
    if ki < 0 {
        assert forall|i: int, j: int| 0 <= i < j < ins.len() implies (#[trigger] ins[i]).0.bytes
            != (#[trigger] ins[j]).0.bytes by {
            if j == pairs.len() as int {
                assert(ins[i] == pairs[i]);
                assert(pairs[i].0.bytes != k.bytes);
            } else {
                assert(ins[i] == pairs[i]);
                assert(ins[j] == pairs[j]);
            }
        }
        assert forall|i: int| 0 <= i < ins.len() implies unique_keys((#[trigger] ins[i]).1) by {
            if i < pairs.len() as int {
                assert(ins[i] == pairs[i]);
            } else {
                assert(ins[i] == (k, v));
            }
        }
    } else {
        assert forall|i: int, j: int| 0 <= i < j < ins.len() implies (#[trigger] ins[i]).0.bytes
            != (#[trigger] ins[j]).0.bytes by {
            assert(ins[i].0.bytes == pairs[i].0.bytes);
            assert(ins[j].0.bytes == pairs[j].0.bytes);
        }
        assert forall|i: int| 0 <= i < ins.len() implies unique_keys((#[trigger] ins[i]).1) by {
            if i != ki {
                assert(ins[i] == pairs[i]);
            } else {
                assert(ins[i].1 == v);
            }
        }
    }
}

/// A parsed value has distinct keys in every object.
proof fn lemma_value_unique(input: Seq<u8>, pos: int)
    ensures
        spec_value(input, pos) matches Ok((m, p)) ==> unique_keys(m),
    decreases input.len() - pos, 2int,
{
    if 0 <= pos < input.len() {
        let b = input[pos];
        if b == LBRACE {
            lemma_object_unique(input, pos);
        } else if b == LBRACKET {
            lemma_array_unique(input, pos);
        }
    }
}

proof fn lemma_object_unique(input: Seq<u8>, pos: int)
    ensures
        spec_object(input, pos) matches Ok((items, p)) ==> distinct_keys(items) && (forall|i: int|
            0 <= i < items.len() ==> unique_keys((#[trigger] items[i]).1)),
    decreases input.len() - pos, 1int,
{
    if 0 <= pos < input.len() && input[pos] == LBRACE {
        let p1 = pos + 1 + ws_count(input, pos + 1);
        if p1 < input.len() {
            lemma_obj_items_unique(input, p1, Seq::empty());
        }
    }
}

proof fn lemma_array_unique(input: Seq<u8>, pos: int)
    ensures
        spec_array(input, pos) matches Ok((items, p)) ==> forall|i: int|
            0 <= i < items.len() ==> unique_keys(#[trigger] items[i]),
    decreases input.len() - pos, 1int,
{
    if 0 <= pos < input.len() && input[pos] == LBRACKET {
        let p1 = pos + 1 + ws_count(input, pos + 1);
        if p1 < input.len() {
            lemma_arr_items_unique(input, p1, Seq::empty());
        }
    }
}

proof fn lemma_pair_unique(input: Seq<u8>, pos: int)
    ensures
        spec_pair(input, pos) matches Ok((k, v, p)) ==> unique_keys(v),
    decreases input.len() - pos, 2int,
{
    match spec_string(input, pos) {
        Err(_) => {},
        Ok((k, p1)) => {
            if pos < p1 && p1 <= input.len() {
                let p2 = p1 + ws_count(input, p1);
                match spec_expect(input, p2, COLON) {
                    Err(_) => {},
                    Ok(p3) => {
                        let p4 = p3 + ws_count(input, p3);
                        if p4 < input.len() {
                            lemma_value_unique(input, p4);
                        }
                    },
                }
            }
        },
    }
}

proof fn lemma_obj_items_unique(input: Seq<u8>, pos: int, acc: Seq<(GText, GValue)>)
    requires
        distinct_keys(acc),
        forall|i: int| 0 <= i < acc.len() ==> unique_keys((#[trigger] acc[i]).1),
    ensures
        spec_obj_items(input, pos, acc) matches Ok((items, p)) ==> distinct_keys(items) && (
        forall|i: int| 0 <= i < items.len() ==> unique_keys((#[trigger] items[i]).1)),
    decreases input.len() - pos, 3int,
{
    match spec_pair(input, pos) {
        Err(_) => {},
        Ok((k, v, p1)) => {
            lemma_pair_unique(input, pos);
            lemma_insert_pair_unique(acc, k, v);
            let acc2 = insert_pair(acc, k, v);
            if pos < p1 && p1 < input.len() && input[p1] == COMMA {
                let p2 = p1 + 1 + ws_count(input, p1 + 1);
                if p2 < input.len() && input[p2] != RBRACE {
                    lemma_obj_items_unique(input, p2, acc2);
                }
            }
        },
    }
}

proof fn lemma_arr_items_unique(input: Seq<u8>, pos: int, acc: Seq<GValue>)
    requires
        forall|i: int| 0 <= i < acc.len() ==> unique_keys(#[trigger] acc[i]),
    ensures
        spec_arr_items(input, pos, acc) matches Ok((items, p)) ==> forall|i: int|
            0 <= i < items.len() ==> unique_keys(#[trigger] items[i]),
    decreases input.len() - pos, 3int,
{
    match spec_value(input, pos) {
        Err(_) => {},
        Ok((v, p0)) => {
            lemma_value_unique(input, pos);
            let acc2 = acc.push(v);
            assert forall|i: int| 0 <= i < acc2.len() implies unique_keys(#[trigger] acc2[i]) by {
                if i < acc.len() as int {
                    assert(acc2[i] == acc[i]);
                } else {
                    assert(acc2[i] == v);
                }
            }
            if pos < p0 {
                let p1 = p0 + ws_count(input, p0);
                if p1 < input.len() && input[p1] == COMMA {
                    let p2 = p1 + 1 + ws_count(input, p1 + 1);
                    if p2 < input.len() && input[p2] != RBRACKET {
                        lemma_arr_items_unique(input, p2, acc2);
                    }
                }
            }
        },
    }
}

/// Object keys are unique: in every object anywhere in a parsed value tree,
/// no two pairs share a key, since inserting a duplicate key during parsing
/// overwrote the prior value instead of adding a pair.
pub proof fn lemma_parsed_keys_unique(input: Seq<u8>)
    ensures
        spec_parse(input) matches Ok((m, p)) ==> unique_keys(m),
{
    lemma_value_unique(input, 0);
}

} // verus!
