//! The grammar, written as a deterministic spec-level parser.
//!
//! Each parsing routine of the executable parser has a counterpart here that
//! maps an input and a start offset to either a model value and the offset
//! just past it, or a model error.  The executable parser's contracts state
//! that it returns exactly what these functions derive, so these definitions
//! are the single place the accepted grammar and the error positions are
//! written down:
//!
//! ```text
//! value      := object | array | string | number | "true" | "false" | "null"
//! object     := '{' ws pair (ws ',' ws pair)* (ws ',')? ws '}'
//! pair       := string ws ':' ws value ws
//! array      := '[' ws value (ws ',' ws value)* (ws ',')? ws ']'
//! string     := '"' (char | escape)* '"'
//! escape     := '\' ('"' | '\' | 'n' | 'r' | 't')
//! number     := '-'? digit+ ('.' digit+)?
//! ws         := (' ' | '\n' | '\r' | '\t')*
//! ```
//!
//! A trailing comma before a closing brace or bracket is tolerated, as an
//! explicit grammar relaxation; a double comma is not.  Objects and arrays
//! must hold at least one member.

use vstd::prelude::*;

use crate::json_value::{GText, GValue};
use crate::parse_error::{char_at, eof_at, GError};

verus! {

/// Byte values of the grammar's significant characters.
pub const QUOTE: u8 = 34;

pub const BACKSLASH: u8 = 92;

pub const LBRACE: u8 = 123;

pub const RBRACE: u8 = 125;

pub const LBRACKET: u8 = 91;

pub const RBRACKET: u8 = 93;

pub const COMMA: u8 = 44;

pub const COLON: u8 = 58;

pub const MINUS: u8 = 45;

pub const DOT: u8 = 46;

pub const SPACE: u8 = 32;

pub const NEWLINE: u8 = 10;

pub const CARRIAGE_RETURN: u8 = 13;

pub const TAB: u8 = 9;

pub const LOWER_A: u8 = 97;

pub const LOWER_E: u8 = 101;

pub const LOWER_F: u8 = 102;

pub const LOWER_L: u8 = 108;

pub const LOWER_N: u8 = 110;

pub const LOWER_R: u8 = 114;

pub const LOWER_S: u8 = 115;

pub const LOWER_T: u8 = 116;

pub const LOWER_U: u8 = 117;

pub const DIGIT_ZERO: u8 = 48;

pub const DIGIT_NINE: u8 = 57;

/// Insignificant whitespace: space, newline, carriage return, tab.
pub open spec fn spec_is_whitespace(b: u8) -> bool {
    b == SPACE || b == NEWLINE || b == CARRIAGE_RETURN || b == TAB
}

/// Decide whether `b` is insignificant whitespace.
#[verifier::when_used_as_spec(spec_is_whitespace)]
pub fn is_whitespace(b: u8) -> (r: bool)
    ensures
        r == spec_is_whitespace(b),
{
    b == SPACE || b == NEWLINE || b == CARRIAGE_RETURN || b == TAB
}

/// A decimal digit.
pub open spec fn spec_is_digit(b: u8) -> bool {
    DIGIT_ZERO <= b <= DIGIT_NINE
}

/// Decide whether `b` is a decimal digit.
#[verifier::when_used_as_spec(spec_is_digit)]
pub fn is_digit(b: u8) -> (r: bool)
    ensures
        r == spec_is_digit(b),
{
    DIGIT_ZERO <= b && b <= DIGIT_NINE
}

/// The characters that may follow a backslash in a string.
pub open spec fn escape_chars() -> Seq<u8> {
    seq![QUOTE, BACKSLASH, LOWER_N, LOWER_R, LOWER_T]
}

/// What an escape sequence decodes to.
pub open spec fn unescaped(b: u8) -> u8 {
    if b == LOWER_N {
        NEWLINE
    } else if b == LOWER_R {
        CARRIAGE_RETURN
    } else if b == LOWER_T {
        TAB
    } else {
        b
    }
}

/// The decimal digits, as the expected set where a digit must stand.
pub open spec fn digit_chars() -> Seq<u8> {
    seq![DIGIT_ZERO, 49, 50, 51, 52, 53, 54, 55, 56, DIGIT_NINE]
}

/// The characters on which a value may start.
pub open spec fn value_start_chars() -> Seq<u8> {
    seq![
        QUOTE,
        LBRACE,
        LBRACKET,
        MINUS,
        DIGIT_ZERO,
        49,
        50,
        51,
        52,
        53,
        54,
        55,
        56,
        DIGIT_NINE,
        LOWER_T,
        LOWER_F,
        LOWER_N,
    ]
}

/// How many whitespace bytes stand at `pos`.
pub open spec fn ws_count(input: Seq<u8>, pos: int) -> nat
    decreases input.len() - pos,
{
    if 0 <= pos < input.len() && spec_is_whitespace(input[pos]) {
        1 + ws_count(input, pos + 1)
    } else {
        0
    }
}

/// How many digit bytes stand at `pos`.
pub open spec fn digit_count(input: Seq<u8>, pos: int) -> nat
    decreases input.len() - pos,
{
    if 0 <= pos < input.len() && spec_is_digit(input[pos]) {
        1 + digit_count(input, pos + 1)
    } else {
        0
    }
}

/// Consume exactly the byte `c`, or fail at `pos`.
pub open spec fn spec_expect(input: Seq<u8>, pos: int, c: u8) -> Result<int, GError> {
    if pos >= input.len() {
        Err(eof_at(pos))
    } else if input[pos] != c {
        Err(char_at(pos, input[pos], seq![c]))
    } else {
        Ok(pos + 1)
    }
}

/// Consume two expected bytes in a row.
pub open spec fn spec_lit2(input: Seq<u8>, pos: int, c0: u8, c1: u8) -> Result<int, GError> {
    match spec_expect(input, pos, c0) {
        Err(e) => Err(e),
        Ok(p) => spec_expect(input, p, c1),
    }
}

/// Consume four expected bytes in a row.
pub open spec fn spec_lit4(input: Seq<u8>, pos: int, c0: u8, c1: u8, c2: u8, c3: u8) -> Result<
    int,
    GError,
> {
    match spec_lit2(input, pos, c0, c1) {
        Err(e) => Err(e),
        Ok(p) => spec_lit2(input, p, c2, c3),
    }
}

/// Scan a string's content after the opening quote, accumulating decoded
/// bytes in `acc`; `escaped` records whether an escape has been seen.  Stops
/// just past the closing quote.
pub open spec fn string_body(input: Seq<u8>, pos: int, acc: Seq<u8>, escaped: bool) -> Result<
    (GText, int),
    GError,
>
    decreases input.len() - pos,
{
    if pos < 0 || pos >= input.len() {
        Err(eof_at(pos))
    } else if input[pos] == QUOTE {
        Ok((GText { bytes: acc, zero_copy: !escaped }, pos + 1))
    } else if input[pos] == BACKSLASH {
        if pos + 1 >= input.len() {
            Err(eof_at(pos + 1))
        } else if escape_chars().contains(input[pos + 1]) {
            string_body(input, pos + 2, acc.push(unescaped(input[pos + 1])), true)
        } else {
            Err(char_at(pos + 1, input[pos + 1], escape_chars()))
        }
    } else {
        string_body(input, pos + 1, acc.push(input[pos]), escaped)
    }
}

/// Decode the escape sequences of a raw string span (the bytes between the
/// quotes): each backslash and its follower become one byte, every other
/// byte passes through unchanged.
pub open spec fn unescape(s: Seq<u8>) -> Seq<u8>
    decreases s.len(),
{
    if s.len() == 0 {
        Seq::empty()
    } else if s[0] == BACKSLASH && s.len() >= 2 {
        seq![unescaped(s[1])] + unescape(s.skip(2))
    } else {
        seq![s[0]] + unescape(s.skip(1))
    }
}

/// Whether a raw string span contains an escape sequence.
pub open spec fn has_backslash(s: Seq<u8>) -> bool {
    exists|i: int| 0 <= i < s.len() && s[i] == BACKSLASH
}

/// Parse a string: an opening quote, content, a closing quote.
pub open spec fn spec_string(input: Seq<u8>, pos: int) -> Result<(GText, int), GError> {
    match spec_expect(input, pos, QUOTE) {
        Err(e) => Err(e),
        Ok(p) => string_body(input, p, Seq::empty(), false),
    }
}

/// Require at least one digit at `pos` and consume the whole run.
pub open spec fn spec_digits(input: Seq<u8>, pos: int) -> Result<int, GError> {
    if pos >= input.len() {
        Err(eof_at(pos))
    } else if !spec_is_digit(input[pos]) {
        Err(char_at(pos, input[pos], digit_chars()))
    } else {
        Ok(pos + digit_count(input, pos))
    }
}

/// Parse a number: optional minus, integer digits, optional fraction.  The
/// result is the exact byte span the number was lexed from.
pub open spec fn spec_number(input: Seq<u8>, pos: int) -> Result<(Seq<u8>, int), GError> {
    let p1 = if 0 <= pos < input.len() && input[pos] == MINUS {
        pos + 1
    } else {
        pos
    };
    match spec_digits(input, p1) {
        Err(e) => Err(e),
        Ok(p2) => {
            if p2 < input.len() && input[p2] == DOT {
                match spec_digits(input, p2 + 1) {
                    Err(e) => Err(e),
                    Ok(p3) => Ok((input.subrange(pos, p3), p3)),
                }
            } else {
                Ok((input.subrange(pos, p2), p2))
            }
        },
    }
}

/// Parse the literal `true` or `false`; only entered on `t` or `f`.
pub open spec fn spec_bool(input: Seq<u8>, pos: int) -> Result<(bool, int), GError> {
    if 0 <= pos < input.len() && input[pos] == LOWER_T {
        match spec_lit4(input, pos, LOWER_T, LOWER_R, LOWER_U, LOWER_E) {
            Err(e) => Err(e),
            Ok(p) => Ok((true, p)),
        }
    } else {
        match spec_lit4(input, pos, LOWER_F, LOWER_A, LOWER_L, LOWER_S) {
            Err(e) => Err(e),
            Ok(p) => match spec_expect(input, p, LOWER_E) {
                Err(e) => Err(e),
                Ok(p2) => Ok((false, p2)),
            },
        }
    }
}

/// Parse the literal `null`.
pub open spec fn spec_null(input: Seq<u8>, pos: int) -> Result<int, GError> {
    spec_lit4(input, pos, LOWER_N, LOWER_U, LOWER_L, LOWER_L)
}

/// The index of the first pair whose key has byte content `key`, or -1.
pub open spec fn key_index(pairs: Seq<(GText, GValue)>, key: Seq<u8>) -> int
    decreases pairs.len(),
{
    if pairs.len() == 0 {
        -1
    } else if pairs[0].0.bytes == key {
        0
    } else {
        let r = key_index(pairs.drop_first(), key);
        if r < 0 {
            -1
        } else {
            r + 1
        }
    }
}

/// Insert a key-value pair into an object's pair sequence: a duplicate key
/// overwrites the prior value in place (last write wins, the stored key text
/// is kept); a new key is appended.
pub open spec fn insert_pair(pairs: Seq<(GText, GValue)>, k: GText, v: GValue) -> Seq<
    (GText, GValue),
> {
    let i = key_index(pairs, k.bytes);
    if i < 0 {
        pairs.push((k, v))
    } else {
        pairs.update(i, (pairs[i].0, v))
    }
}

/// The value stored under byte content `key`, if any.
pub open spec fn lookup(pairs: Seq<(GText, GValue)>, key: Seq<u8>) -> Option<GValue> {
    let i = key_index(pairs, key);
    if i < 0 {
        None
    } else {
        Some(pairs[i].1)
    }
}

/// Parse one value, dispatching on the current byte without consuming it.
pub open spec fn spec_value(input: Seq<u8>, pos: int) -> Result<(GValue, int), GError>
    decreases input.len() - pos, 2int,
{
    if pos < 0 || pos >= input.len() {
        Err(eof_at(pos))
    } else {
        let b = input[pos];
        if b == QUOTE {
            match spec_string(input, pos) {
                Err(e) => Err(e),
                Ok((t, p)) => Ok((GValue::Str(t), p)),
            }
        } else if b == LBRACE {
            match spec_object(input, pos) {
                Err(e) => Err(e),
                Ok((items, p)) => Ok((GValue::Obj(items), p)),
            }
        } else if b == LBRACKET {
            match spec_array(input, pos) {
                Err(e) => Err(e),
                Ok((elems, p)) => Ok((GValue::Arr(elems), p)),
            }
        } else if spec_is_digit(b) || b == MINUS {
            match spec_number(input, pos) {
                Err(e) => Err(e),
                Ok((raw, p)) => Ok((GValue::Num(raw), p)),
            }
        } else if b == LOWER_T || b == LOWER_F {
            match spec_bool(input, pos) {
                Err(e) => Err(e),
                Ok((v, p)) => Ok((GValue::Bool(v), p)),
            }
        } else if b == LOWER_N {
            match spec_null(input, pos) {
                Err(e) => Err(e),
                Ok(p) => Ok((GValue::Null, p)),
            }
        } else {
            Err(char_at(pos, b, value_start_chars()))
        }
    }
}

/// Parse an object: `{`, whitespace, then its members.
pub open spec fn spec_object(input: Seq<u8>, pos: int) -> Result<(Seq<(GText, GValue)>, int), GError>
    decreases input.len() - pos, 1int,
{
    if pos < 0 || pos >= input.len() {
        Err(eof_at(pos))
    } else if input[pos] != LBRACE {
        Err(char_at(pos, input[pos], seq![LBRACE]))
    } else {
        let p1 = pos + 1 + ws_count(input, pos + 1);
        if p1 >= input.len() {
            Err(eof_at(p1))
        } else {
            spec_obj_items(input, p1, Seq::empty())
        }
    }
}

/// Parse an array: `[`, whitespace, then its elements.
pub open spec fn spec_array(input: Seq<u8>, pos: int) -> Result<(Seq<GValue>, int), GError>
    decreases input.len() - pos, 1int,
{
    if pos < 0 || pos >= input.len() {
        Err(eof_at(pos))
    } else if input[pos] != LBRACKET {
        Err(char_at(pos, input[pos], seq![LBRACKET]))
    } else {
        let p1 = pos + 1 + ws_count(input, pos + 1);
        if p1 >= input.len() {
            Err(eof_at(p1))
        } else {
            spec_arr_items(input, p1, Seq::empty())
        }
    }
}

/// Parse one key-value pair: a string key, whitespace, `:`, whitespace, a
/// value, and trailing whitespace.
pub open spec fn spec_pair(input: Seq<u8>, pos: int) -> Result<(GText, GValue, int), GError>
    decreases input.len() - pos, 2int,
{
    match spec_string(input, pos) {
        Err(e) => Err(e),
        Ok((k, p1)) => {
            if !(pos < p1 && p1 <= input.len()) {
                // The string scan only moves forward within bounds; this
                // branch keeps the recursion well-founded and is never taken.
                Err(eof_at(p1))
            } else {
                let p2 = p1 + ws_count(input, p1);
                match spec_expect(input, p2, COLON) {
                    Err(e) => Err(e),
                    Ok(p3) => {
                        let p4 = p3 + ws_count(input, p3);
                        if p4 >= input.len() {
                            Err(eof_at(p4))
                        } else {
                            match spec_value(input, p4) {
                                Err(e) => Err(e),
                                Ok((v, p5)) => Ok((k, v, p5 + ws_count(input, p5))),
                            }
                        }
                    },
                }
            }
        },
    }
}

/// Parse an object's members, starting at the first key: one pair, then
/// either `,` (with a tolerated trailing comma before `}`) or `}`.
pub open spec fn spec_obj_items(input: Seq<u8>, pos: int, acc: Seq<(GText, GValue)>) -> Result<
    (Seq<(GText, GValue)>, int),
    GError,
>
    decreases input.len() - pos, 3int,
{
    match spec_pair(input, pos) {
        Err(e) => Err(e),
        Ok((k, v, p1)) => {
            let acc2 = insert_pair(acc, k, v);
            if p1 <= pos {
                // A pair only moves forward; never taken.
                Err(eof_at(p1))
            } else if p1 >= input.len() {
                Err(eof_at(p1))
            } else if input[p1] == COMMA {
                let p2 = p1 + 1 + ws_count(input, p1 + 1);
                if p2 >= input.len() {
                    Err(eof_at(p2))
                } else if input[p2] == RBRACE {
                    Ok((acc2, p2 + 1))
                } else {
                    spec_obj_items(input, p2, acc2)
                }
            } else if input[p1] == RBRACE {
                Ok((acc2, p1 + 1))
            } else {
                Err(char_at(p1, input[p1], seq![COMMA, RBRACE]))
            }
        },
    }
}

/// Parse an array's elements, starting at the first element: one value,
/// whitespace, then either `,` (with a tolerated trailing comma before `]`)
/// or `]`.
pub open spec fn spec_arr_items(input: Seq<u8>, pos: int, acc: Seq<GValue>) -> Result<
    (Seq<GValue>, int),
    GError,
>
    decreases input.len() - pos, 3int,
{
    match spec_value(input, pos) {
        Err(e) => Err(e),
        Ok((v, p0)) => {
            let acc2 = acc.push(v);
            if p0 <= pos {
                // A value only moves forward; never taken.
                Err(eof_at(p0))
            } else {
                let p1 = p0 + ws_count(input, p0);
                if p1 >= input.len() {
                    Err(eof_at(p1))
                } else if input[p1] == COMMA {
                    let p2 = p1 + 1 + ws_count(input, p1 + 1);
                    if p2 >= input.len() {
                        Err(eof_at(p2))
                    } else if input[p2] == RBRACKET {
                        Ok((acc2, p2 + 1))
                    } else {
                        spec_arr_items(input, p2, acc2)
                    }
                } else if input[p1] == RBRACKET {
                    Ok((acc2, p1 + 1))
                } else {
                    Err(char_at(p1, input[p1], seq![COMMA, RBRACKET]))
                }
            }
        },
    }
}

/// Parse one value from the start of the input.  This is the whole
/// specification of `parse_json`: input after the parsed value is not
/// validated.
pub open spec fn spec_parse(input: Seq<u8>) -> Result<(GValue, int), GError> {
    spec_value(input, 0)
}

} // verus!
