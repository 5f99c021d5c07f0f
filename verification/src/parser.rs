//! The executable recursive-descent parser.
//!
//! One immutable reference to the input plus one mutable cursor, threaded by
//! `&mut self` through every routine.  Each routine's contract states that it
//! returns exactly what its spec-level counterpart in [`crate::grammar`]
//! derives: the same model value, the same final cursor, or the same error
//! at the same position.

use vstd::prelude::*;
use vstd::slice::{slice_index_get, slice_subrange, slice_to_vec};

use crate::grammar::{
    digit_chars, digit_count, escape_chars, insert_pair, is_digit, is_whitespace, key_index,
    spec_arr_items, spec_array, spec_bool, spec_expect, spec_number, spec_obj_items,
    spec_object, spec_pair, spec_string, spec_value, string_body, unescaped, ws_count,
    BACKSLASH, CARRIAGE_RETURN, COLON, COMMA, DIGIT_NINE, DIGIT_ZERO, DOT, LBRACE, LBRACKET,
    LOWER_A, LOWER_E, LOWER_F, LOWER_L, LOWER_N, LOWER_R, LOWER_S, LOWER_T, LOWER_U, MINUS,
    NEWLINE, QUOTE, RBRACE, RBRACKET, TAB,
};
use crate::json_value::{
    bytes_equal, lemma_model_pairs, model_elems, model_pairs, GText, GValue, JsonValue, Text,
};
use crate::laws::lemma_key_index_props;
use crate::parse_error::{ParseError, ParseErrorKind, ParseResult};

verus! {

/// The decimal digits as an expected set.
fn digit_chars_vec() -> (r: Vec<u8>)
    ensures
        r@ == digit_chars(),
{
    let v: Vec<u8> = vec![DIGIT_ZERO, 49, 50, 51, 52, 53, 54, 55, 56, DIGIT_NINE];
    proof {
        assert(v@ =~= digit_chars());
    }
    v
}

/// The escapable characters as an expected set.
fn escape_chars_vec() -> (r: Vec<u8>)
    ensures
        r@ == escape_chars(),
{
    let v: Vec<u8> = vec![QUOTE, BACKSLASH, LOWER_N, LOWER_R, LOWER_T];
    proof {
        assert(v@ =~= escape_chars());
    }
    v
}

/// The characters a value may start on, as an expected set.
fn value_start_chars_vec() -> (r: Vec<u8>)
    ensures
        r@ == crate::grammar::value_start_chars(),
{
    let v: Vec<u8> = vec![
        QUOTE,
        LBRACE,
        LBRACKET,
        MINUS,
        DIGIT_ZERO,
        49,
        50,
        51,
        52,
        53,
        54,
        55,
        56,
        DIGIT_NINE,
        LOWER_T,
        LOWER_F,
        LOWER_N,
    ];
    proof {
        assert(v@ =~= crate::grammar::value_start_chars());
    }
    v
}

pub struct JsonParser<'input> {
    pub input: &'input [u8],
    pub current_idx: usize,
}

impl<'input> JsonParser<'input> {
    /// The cursor stays inside the input, whose length leaves room for
    /// 1-indexed line and column counters.
    pub open spec fn wf(&self) -> bool {
        self.current_idx <= self.input@.len() < usize::MAX
    }

    /// Create a new `JsonParser` over the given input, cursor at the start.
    pub fn new(input: &'input [u8]) -> (r: JsonParser<'input>)
        requires
            input@.len() < usize::MAX,
        ensures
            r.wf(),
            r.input == input,
            r.current_idx == 0,
    {
        JsonParser { input, current_idx: 0 }
    }

    /// The byte under the cursor, if the cursor is inside the input.
    pub fn current_byte(&self) -> (r: Option<u8>)
        ensures
            r == (if self.current_idx < self.input@.len() {
                Some(self.input@[self.current_idx as int])
            } else {
                None::<u8>
            }),
    {
        if self.current_idx < self.input.len() {
            Some(*slice_index_get(self.input, self.current_idx))
        } else {
            None
        }
    }

    /// The current cursor position, a byte offset into the input.
    pub fn current_idx(&self) -> (r: usize)
        ensures
            r == self.current_idx,
    {
        self.current_idx
    }

    /// Advance the cursor by `n` bytes.
    pub fn next(&mut self, n: usize)
        requires
            old(self).wf(),
            old(self).current_idx + n <= old(self).input@.len(),
        ensures
            final(self).wf(),
            final(self).input == old(self).input,
            final(self).current_idx == old(self).current_idx + n,
    {
        self.current_idx = self.current_idx + n;
    }

    /// Consume exactly the byte `expected`, or fail at the cursor.
    pub fn expect(&mut self, expected: u8) -> (r: ParseResult<()>)
        requires
            old(self).wf(),
        ensures
            final(self).wf(),
            final(self).input == old(self).input,
            match spec_expect(old(self).input@, old(self).current_idx as int, expected) {
                Ok(p) => r is Ok && final(self).current_idx == p,
                Err(e) => r matches Err(pe) && pe.matches(old(self).input@, e),
            },
    {
        if self.current_idx >= self.input.len() {
            return Err(
                ParseError::new(self.input, self.current_idx, ParseErrorKind::UnexpectedEndOfInput),
            );
        }
        let found = *slice_index_get(self.input, self.current_idx);
        if found != expected {
            let exp: Vec<u8> = vec![expected];
            proof {
                assert(exp@ =~= seq![expected]);
            }
            return Err(
                ParseError::new(
                    self.input,
                    self.current_idx,
                    ParseErrorKind::UnexpectedCharacter(found, exp),
                ),
            );
        }
        self.next(1);
        Ok(())
    }

    /// Skip every whitespace byte under the cursor.
    pub fn expect_optional_whitespace(&mut self)
        requires
            old(self).wf(),
        ensures
            final(self).wf(),
            final(self).input == old(self).input,
            final(self).current_idx == old(self).current_idx + ws_count(
                old(self).input@,
                old(self).current_idx as int,
            ),
    {
        let ghost idx0: usize = self.current_idx;
        while self.current_idx < self.input.len() && is_whitespace(
            *slice_index_get(self.input, self.current_idx),
        )
            invariant
                self.wf(),
                self.input == old(self).input,
                idx0 <= self.current_idx,
                ws_count(self.input@, idx0 as int) == (self.current_idx - idx0) + ws_count(
                    self.input@,
                    self.current_idx as int,
                ),
            decreases self.input@.len() - self.current_idx,
        {
            self.next(1);
        }
    }

    /// Parse a string value: a zero-copy view into the input if no escape
    /// sequence was seen, an owned decoded buffer otherwise.
    pub fn parse_string(&mut self) -> (r: ParseResult<Text<'input>>)
        requires
            old(self).wf(),
        ensures
            final(self).wf(),
            final(self).input == old(self).input,
            match spec_string(old(self).input@, old(self).current_idx as int) {
                Ok((gt, p)) => r matches Ok(t) && t.model() == gt && final(self).current_idx == p
                    && old(self).current_idx < final(self).current_idx,
                Err(e) => r matches Err(pe) && pe.matches(old(self).input@, e),
            },
    {
        match self.expect(QUOTE) {
            Err(e) => {
                return Err(e);
            },
            Ok(()) => {},
        }
        let start = self.current_idx;
        let mut buf: Option<Vec<u8>> = None;
        proof {
            assert(self.input@.subrange(start as int, start as int) =~= Seq::<u8>::empty());
        }
        loop
            invariant
                self.wf(),
                self.input == old(self).input,
                old(self).current_idx < start <= self.current_idx <= self.input@.len(),
                buf is None ==> string_body(self.input@, start as int, Seq::empty(), false)
                    == string_body(
                    self.input@,
                    self.current_idx as int,
                    self.input@.subrange(start as int, self.current_idx as int),
                    false,
                ),
                buf matches Some(v) ==> string_body(self.input@, start as int, Seq::empty(), false)
                    == string_body(self.input@, self.current_idx as int, v@, true),
                spec_string(old(self).input@, old(self).current_idx as int) == string_body(
                    self.input@,
                    start as int,
                    Seq::empty(),
                    false,
                ),
            decreases self.input@.len() - self.current_idx,
        {
            if self.current_idx >= self.input.len() {
                return Err(
                    ParseError::new(
                        self.input,
                        self.current_idx,
                        ParseErrorKind::UnexpectedEndOfInput,
                    ),
                );
            }
            let b = *slice_index_get(self.input, self.current_idx);
            if b == QUOTE {
                let content: Text<'input> = match buf {
                    Some(v) => Text::Owned(v),
                    None => Text::Borrowed(
                        slice_subrange(self.input, start, self.current_idx),
                    ),
                };
                self.next(1);
                return Ok(content);
            }
            if b == BACKSLASH {
                let bs_pos = self.current_idx;
                self.next(1);
                if self.current_idx >= self.input.len() {
                    return Err(
                        ParseError::new(
                            self.input,
                            self.current_idx,
                            ParseErrorKind::UnexpectedEndOfInput,
                        ),
                    );
                }
                let e = *slice_index_get(self.input, self.current_idx);
                let d: u8 = if e == QUOTE {
                    QUOTE
                } else if e == BACKSLASH {
                    BACKSLASH
                } else if e == LOWER_N {
                    NEWLINE
                } else if e == LOWER_R {
                    CARRIAGE_RETURN
                } else if e == LOWER_T {
                    TAB
                } else {
                    proof {
                        assert forall|i: int| 0 <= i < escape_chars().len() implies escape_chars()[i]
                            != e by {}
                        assert(!escape_chars().contains(e));
                    }
                    return Err(
                        ParseError::new(
                            self.input,
                            self.current_idx,
                            ParseErrorKind::UnexpectedCharacter(e, escape_chars_vec()),
                        ),
                    );
                };
                proof {
                    if e == QUOTE {
                        assert(escape_chars()[0] == e);
                    } else if e == BACKSLASH {
                        assert(escape_chars()[1] == e);
                    } else if e == LOWER_N {
                        assert(escape_chars()[2] == e);
                    } else if e == LOWER_R {
                        assert(escape_chars()[3] == e);
                    } else {
                        assert(escape_chars()[4] == e);
                    }
                    assert(escape_chars().contains(e));
                    assert(unescaped(e) == d);
                }
                let mut bb: Vec<u8> = match buf {
                    Some(v) => v,
                    None => slice_to_vec(slice_subrange(self.input, start, bs_pos)),
                };
                bb.push(d);
                buf = Some(bb);
                self.next(1);
            } else {
                buf = match buf {
                    Some(mut v) => {
                        v.push(b);
                        Some(v)
                    },
                    None => {
                        proof {
                            assert(self.input@.subrange(
                                start as int,
                                self.current_idx + 1,
                            ) =~= self.input@.subrange(start as int, self.current_idx as int).push(
                                self.input@[self.current_idx as int],
                            ));
                        }
                        None
                    },
                };
                self.next(1);
            }
        }
    }

    /// Parse a number and return the exact byte span it was lexed from.
    pub fn parse_number(&mut self) -> (r: ParseResult<&'input [u8]>)
        requires
            old(self).wf(),
        ensures
            final(self).wf(),
            final(self).input == old(self).input,
            match spec_number(old(self).input@, old(self).current_idx as int) {
                Ok((raw, p)) => r matches Ok(s) && s@ == raw && final(self).current_idx == p
                    && old(self).current_idx < final(self).current_idx,
                Err(e) => r matches Err(pe) && pe.matches(old(self).input@, e),
            },
    {
        let start = self.current_idx;
        if self.current_idx < self.input.len() && *slice_index_get(self.input, self.current_idx)
            == MINUS {
            self.next(1);
        }
        if self.current_idx >= self.input.len() {
            return Err(
                ParseError::new(self.input, self.current_idx, ParseErrorKind::UnexpectedEndOfInput),
            );
        }
        let b0 = *slice_index_get(self.input, self.current_idx);
        if !is_digit(b0) {
            return Err(
                ParseError::new(
                    self.input,
                    self.current_idx,
                    ParseErrorKind::UnexpectedCharacter(b0, digit_chars_vec()),
                ),
            );
        }
        let ghost d0: usize = self.current_idx;
        while self.current_idx < self.input.len() && is_digit(
            *slice_index_get(self.input, self.current_idx),
        )
            invariant
                self.wf(),
                self.input == old(self).input,
                d0 <= self.current_idx,
                digit_count(self.input@, d0 as int) == (self.current_idx - d0) + digit_count(
                    self.input@,
                    self.current_idx as int,
                ),
            decreases self.input@.len() - self.current_idx,
        {
            self.next(1);
        }
        if self.current_idx < self.input.len() && *slice_index_get(self.input, self.current_idx)
            == DOT {
            self.next(1);
            if self.current_idx >= self.input.len() {
                return Err(
                    ParseError::new(
                        self.input,
                        self.current_idx,
                        ParseErrorKind::UnexpectedEndOfInput,
                    ),
                );
            }
            let b1 = *slice_index_get(self.input, self.current_idx);
            if !is_digit(b1) {
                return Err(
                    ParseError::new(
                        self.input,
                        self.current_idx,
                        ParseErrorKind::UnexpectedCharacter(b1, digit_chars_vec()),
                    ),
                );
            }
            let ghost d1: usize = self.current_idx;
            while self.current_idx < self.input.len() && is_digit(
                *slice_index_get(self.input, self.current_idx),
            )
                invariant
                    self.wf(),
                    self.input == old(self).input,
                    d1 <= self.current_idx,
                    digit_count(self.input@, d1 as int) == (self.current_idx - d1) + digit_count(
                        self.input@,
                        self.current_idx as int,
                    ),
                decreases self.input@.len() - self.current_idx,
            {
                self.next(1);
            }
        }
        let s = slice_subrange(self.input, start, self.current_idx);
        Ok(s)
    }

    /// Parse the literal `true` or `false`, one expected character at a time.
    pub fn parse_bool(&mut self) -> (r: ParseResult<bool>)
        requires
            old(self).wf(),
        ensures
            final(self).wf(),
            final(self).input == old(self).input,
            match spec_bool(old(self).input@, old(self).current_idx as int) {
                Ok((v, p)) => r matches Ok(bv) && bv == v && final(self).current_idx == p && old(self).current_idx < final(self).current_idx,
                Err(e) => r matches Err(pe) && pe.matches(old(self).input@, e),
            },
    {
        if self.current_idx < self.input.len() && *slice_index_get(self.input, self.current_idx)
            == LOWER_T {
            match self.expect(LOWER_T) {
                Err(e) => {
                    return Err(e);
                },
                Ok(()) => {},
            }
            match self.expect(LOWER_R) {
                Err(e) => {
                    return Err(e);
                },
                Ok(()) => {},
            }
            match self.expect(LOWER_U) {
                Err(e) => {
                    return Err(e);
                },
                Ok(()) => {},
            }
            match self.expect(LOWER_E) {
                Err(e) => {
                    return Err(e);
                },
                Ok(()) => {},
            }
            Ok(true)
        } else {
            match self.expect(LOWER_F) {
                Err(e) => {
                    return Err(e);
                },
                Ok(()) => {},
            }
            match self.expect(LOWER_A) {
                Err(e) => {
                    return Err(e);
                },
                Ok(()) => {},
            }
            match self.expect(LOWER_L) {
                Err(e) => {
                    return Err(e);
                },
                Ok(()) => {},
            }
            match self.expect(LOWER_S) {
                Err(e) => {
                    return Err(e);
                },
                Ok(()) => {},
            }
            match self.expect(LOWER_E) {
                Err(e) => {
                    return Err(e);
                },
                Ok(()) => {},
            }
            Ok(false)
        }
    }

    /// Parse one key-value pair: a string key, `:`, a value, with optional
    /// whitespace between and after.
    pub fn parse_key_value_pair(&mut self) -> (r: ParseResult<(Text<'input>, JsonValue<'input>)>)
        requires
            old(self).wf(),
        ensures
            final(self).wf(),
            final(self).input == old(self).input,
            match spec_pair(old(self).input@, old(self).current_idx as int) {
                Ok((gk, gv, p)) => r matches Ok(kv) && kv.0.model() == gk && kv.1.model() == gv
                    && final(self).current_idx == p && old(self).current_idx < final(self).current_idx,
                Err(e) => r matches Err(pe) && pe.matches(old(self).input@, e),
            },
        decreases self.input@.len() - self.current_idx, 0int,
    {
        let k = match self.parse_string() {
            Err(e) => {
                return Err(e);
            },
            Ok(t) => t,
        };
        self.expect_optional_whitespace();
        match self.expect(COLON) {
            Err(e) => {
                return Err(e);
            },
            Ok(()) => {},
        }
        self.expect_optional_whitespace();
        if self.current_idx >= self.input.len() {
            return Err(
                ParseError::new(self.input, self.current_idx, ParseErrorKind::UnexpectedEndOfInput),
            );
        }
        let v = match self.parse_value() {
            Err(e) => {
                return Err(e);
            },
            Ok(v) => v,
        };
        self.expect_optional_whitespace();
        Ok((k, v))
    }

    /// Parse one value, dispatching on the byte under the cursor.
    pub fn parse_value(&mut self) -> (r: ParseResult<JsonValue<'input>>)
        requires
            old(self).wf(),
        ensures
            final(self).wf(),
            final(self).input == old(self).input,
            match spec_value(old(self).input@, old(self).current_idx as int) {
                Ok((m, p)) => r matches Ok(v) && v.model() == m && final(self).current_idx == p
                    && old(self).current_idx < final(self).current_idx,
                Err(e) => r matches Err(pe) && pe.matches(old(self).input@, e),
            },
        decreases self.input@.len() - self.current_idx, 1int,
    {
        if self.current_idx >= self.input.len() {
            return Err(
                ParseError::new(self.input, self.current_idx, ParseErrorKind::UnexpectedEndOfInput),
            );
        }
        let b = *slice_index_get(self.input, self.current_idx);
        if b == QUOTE {
            match self.parse_string() {
                Err(e) => Err(e),
                Ok(t) => Ok(JsonValue::String(t)),
            }
        } else if b == LBRACE {
            match self.parse_object() {
                Err(e) => Err(e),
                Ok(pairs) => Ok(JsonValue::Object(pairs)),
            }
        } else if b == LBRACKET {
            match self.parse_array() {
                Err(e) => Err(e),
                Ok(elems) => Ok(JsonValue::Array(elems)),
            }
        } else if is_digit(b) || b == MINUS {
            match self.parse_number() {
                Err(e) => Err(e),
                Ok(raw) => Ok(JsonValue::Number(raw)),
            }
        } else if b == LOWER_T || b == LOWER_F {
            match self.parse_bool() {
                Err(e) => Err(e),
                Ok(v) => Ok(JsonValue::Boolean(v)),
            }
        } else if b == LOWER_N {
            match self.expect(LOWER_N) {
                Err(e) => {
                    return Err(e);
                },
                Ok(()) => {},
            }
            match self.expect(LOWER_U) {
                Err(e) => {
                    return Err(e);
                },
                Ok(()) => {},
            }
            match self.expect(LOWER_L) {
                Err(e) => {
                    return Err(e);
                },
                Ok(()) => {},
            }
            match self.expect(LOWER_L) {
                Err(e) => {
                    return Err(e);
                },
                Ok(()) => {},
            }
            Ok(JsonValue::Null)
        } else {
            Err(
                ParseError::new(
                    self.input,
                    self.current_idx,
                    ParseErrorKind::UnexpectedCharacter(b, value_start_chars_vec()),
                ),
            )
        }
    }

    /// Parse an object: `{`, whitespace, then pairs separated by commas, with
    /// a tolerated trailing comma, up to `}`.
    #[verifier::loop_isolation(false)]
    pub fn parse_object(&mut self) -> (r: ParseResult<Vec<(Text<'input>, JsonValue<'input>)>>)
        requires
            old(self).wf(),
        ensures
            final(self).wf(),
            final(self).input == old(self).input,
            match spec_object(old(self).input@, old(self).current_idx as int) {
                Ok((items, p)) => r matches Ok(pairs) && model_pairs(pairs@) == items && final(self).current_idx == p && old(self).current_idx < final(self).current_idx,
                Err(e) => r matches Err(pe) && pe.matches(old(self).input@, e),
            },
        decreases self.input@.len() - self.current_idx, 0int,
    {
        match self.expect(LBRACE) {
            Err(e) => {
                return Err(e);
            },
            Ok(()) => {},
        }
        self.expect_optional_whitespace();
        if self.current_idx >= self.input.len() {
            return Err(
                ParseError::new(self.input, self.current_idx, ParseErrorKind::UnexpectedEndOfInput),
            );
        }
        let ghost entry: usize = self.current_idx;
        let mut pairs: Vec<(Text<'input>, JsonValue<'input>)> = Vec::new();
        proof {
            assert(model_pairs(pairs@) =~= Seq::<(GText, GValue)>::empty());
        }
        loop
            invariant
                self.wf(),
                self.input == old(self).input,
                old(self).current_idx < self.current_idx < self.input@.len(),
                spec_obj_items(self.input@, self.current_idx as int, model_pairs(pairs@))
                    == spec_obj_items(self.input@, entry as int, Seq::empty()),
                spec_object(old(self).input@, old(self).current_idx as int) == spec_obj_items(
                    self.input@,
                    entry as int,
                    Seq::empty(),
                ),
            decreases self.input@.len() - self.current_idx,
        {
            let kv = match self.parse_key_value_pair() {
                Err(e) => {
                    return Err(e);
                },
                Ok(kv) => kv,
            };
            insert_entry(&mut pairs, kv.0, kv.1);
            if self.current_idx >= self.input.len() {
                return Err(
                    ParseError::new(
                        self.input,
                        self.current_idx,
                        ParseErrorKind::UnexpectedEndOfInput,
                    ),
                );
            }
            let b = *slice_index_get(self.input, self.current_idx);
            if b == COMMA {
                self.next(1);
                self.expect_optional_whitespace();
                if self.current_idx >= self.input.len() {
                    return Err(
                        ParseError::new(
                            self.input,
                            self.current_idx,
                            ParseErrorKind::UnexpectedEndOfInput,
                        ),
                    );
                }
                let b2 = *slice_index_get(self.input, self.current_idx);
                if b2 == RBRACE {
                    self.next(1);
                    return Ok(pairs);
                }
            } else if b == RBRACE {
                self.next(1);
                return Ok(pairs);
            } else {
                let exp: Vec<u8> = vec![COMMA, RBRACE];
                proof {
                    assert(exp@ =~= seq![COMMA, RBRACE]);
                }
                return Err(
                    ParseError::new(
                        self.input,
                        self.current_idx,
                        ParseErrorKind::UnexpectedCharacter(b, exp),
                    ),
                );
            }
        }
    }

    /// Parse an array: `[`, whitespace, then values separated by commas, with
    /// a tolerated trailing comma, up to `]`.
    #[verifier::loop_isolation(false)]
    pub fn parse_array(&mut self) -> (r: ParseResult<Vec<JsonValue<'input>>>)
        requires
            old(self).wf(),
        ensures
            final(self).wf(),
            final(self).input == old(self).input,
            match spec_array(old(self).input@, old(self).current_idx as int) {
                Ok((items, p)) => r matches Ok(elems) && model_elems(elems@) == items && final(self).current_idx == p && old(self).current_idx < final(self).current_idx,
                Err(e) => r matches Err(pe) && pe.matches(old(self).input@, e),
            },
        decreases self.input@.len() - self.current_idx, 0int,
    {
        match self.expect(LBRACKET) {
            Err(e) => {
                return Err(e);
            },
            Ok(()) => {},
        }
        self.expect_optional_whitespace();
        if self.current_idx >= self.input.len() {
            return Err(
                ParseError::new(self.input, self.current_idx, ParseErrorKind::UnexpectedEndOfInput),
            );
        }
        let ghost entry: usize = self.current_idx;
        let mut elems: Vec<JsonValue<'input>> = Vec::new();
        proof {
            assert(model_elems(elems@) =~= Seq::<GValue>::empty());
        }
        loop
            invariant
                self.wf(),
                self.input == old(self).input,
                old(self).current_idx < self.current_idx < self.input@.len(),
                spec_arr_items(self.input@, self.current_idx as int, model_elems(elems@))
                    == spec_arr_items(self.input@, entry as int, Seq::empty()),
                spec_array(old(self).input@, old(self).current_idx as int) == spec_arr_items(
                    self.input@,
                    entry as int,
                    Seq::empty(),
                ),
            decreases self.input@.len() - self.current_idx,
        {
            let v = match self.parse_value() {
                Err(e) => {
                    return Err(e);
                },
                Ok(v) => v,
            };
            let ghost before: Seq<JsonValue<'input>> = elems@;
            elems.push(v);
            proof {
                assert(elems@.drop_last() =~= before);
                assert(model_elems(elems@) == model_elems(before).push(elems@.last().model()));
            }
            self.expect_optional_whitespace();
            if self.current_idx >= self.input.len() {
                return Err(
                    ParseError::new(
                        self.input,
                        self.current_idx,
                        ParseErrorKind::UnexpectedEndOfInput,
                    ),
                );
            }
            let b = *slice_index_get(self.input, self.current_idx);
            if b == COMMA {
                self.next(1);
                self.expect_optional_whitespace();
                if self.current_idx >= self.input.len() {
                    return Err(
                        ParseError::new(
                            self.input,
                            self.current_idx,
                            ParseErrorKind::UnexpectedEndOfInput,
                        ),
                    );
                }
                let b2 = *slice_index_get(self.input, self.current_idx);
                if b2 == RBRACKET {
                    self.next(1);
                    return Ok(elems);
                }
            } else if b == RBRACKET {
                self.next(1);
                return Ok(elems);
            } else {
                let exp: Vec<u8> = vec![COMMA, RBRACKET];
                proof {
                    assert(exp@ =~= seq![COMMA, RBRACKET]);
                }
                return Err(
                    ParseError::new(
                        self.input,
                        self.current_idx,
                        ParseErrorKind::UnexpectedCharacter(b, exp),
                    ),
                );
            }
        }
    }

    /// Parse the input as one JSON value starting at the cursor.
    pub fn parse(&mut self) -> (r: ParseResult<JsonValue<'input>>)
        requires
            old(self).wf(),
        ensures
            final(self).wf(),
            final(self).input == old(self).input,
            match spec_value(old(self).input@, old(self).current_idx as int) {
                Ok((m, p)) => r matches Ok(v) && v.model() == m && final(self).current_idx == p,
                Err(e) => r matches Err(pe) && pe.matches(old(self).input@, e),
            },
    {
        self.parse_value()
    }
}

/// Insert a key-value pair into an object under construction: a duplicate
/// key overwrites the prior value in place (the stored key text is kept), a
/// new key is appended.
#[verifier::loop_isolation(false)]
fn insert_entry<'a>(pairs: &mut Vec<(Text<'a>, JsonValue<'a>)>, k: Text<'a>, v: JsonValue<'a>)
    ensures
        model_pairs(final(pairs)@) == insert_pair(model_pairs(old(pairs)@), k.model(), v.model()),
{
    let ghost ps0: Seq<(Text<'a>, JsonValue<'a>)> = pairs@;
    let ghost km: GText = k.model();
    let ghost vm: GValue = v.model();
    proof {
        lemma_model_pairs(ps0);
        lemma_key_index_props(model_pairs(ps0), km.bytes);
    }
    let mut i: usize = 0;
    while i < pairs.len()
        invariant
            pairs@ == ps0,
            0 <= i <= ps0.len(),
            forall|j: int| 0 <= j < i ==> (#[trigger] ps0[j]).0.bytes() != km.bytes,
        decreases ps0.len() - i,
    {
        let keq = bytes_equal(pairs[i].0.as_bytes(), k.as_bytes());
        if keq {
            proof {
                lemma_model_pairs(ps0);
                lemma_key_index_props(model_pairs(ps0), km.bytes);
                let ki = key_index(model_pairs(ps0), km.bytes);
                assert(model_pairs(ps0)[i as int].0.bytes == km.bytes);
                if ki < 0 {
                    assert(model_pairs(ps0)[i as int].0.bytes != km.bytes);
                } else if ki > i as int {
                    assert(model_pairs(ps0)[i as int].0.bytes != km.bytes);
                } else if ki < i as int {
                    assert(ps0[ki].0.bytes() != km.bytes);
                    assert(model_pairs(ps0)[ki].0.bytes == km.bytes);
                }
                assert(ki == i as int);
            }
            let entry = pairs.remove(i);
            let old_key = entry.0;
            pairs.insert(i, (old_key, v));
            proof {
                assert(pairs@ =~= ps0.update(i as int, (ps0[i as int].0, pairs@[i as int].1)));
                lemma_model_pairs(pairs@);
                assert(model_pairs(pairs@) =~= insert_pair(model_pairs(ps0), km, vm));
            }
            return ;
        }
        i = i + 1;
    }
    proof {
        let ki = key_index(model_pairs(ps0), km.bytes);
        if ki >= 0 {
            assert(model_pairs(ps0)[ki].0.bytes == km.bytes);
            assert(ps0[ki].0.bytes() != km.bytes);
        }
        assert(ki == -1);
    }
    let ghost before: Seq<(Text<'a>, JsonValue<'a>)> = pairs@;
    pairs.push((k, v));
    proof {
        assert(pairs@.drop_last() =~= before);
        lemma_model_pairs(pairs@);
        assert(model_pairs(pairs@) =~= insert_pair(model_pairs(ps0), km, vm));
    }
}

} // verus!
