//! Structured parse errors with 1-indexed line and column positions.
//!
//! `GError` is the model of an error: the byte offset at which the parse
//! failed plus the kind of failure.  The executable `ParseError` reports the
//! offset as a line and column, counting characters (bytes that are not
//! UTF-8 continuation bytes) since the last newline.

use vstd::prelude::*;

verus! {

pub type ParseResult<T> = Result<T, ParseError>;

/// Model of an error kind: the input ended inside an open construct, or the
/// byte found at the failure position was none of the expected characters.
pub enum GErrorKind {
    Eof,
    Char { found: u8, expected: Seq<u8> },
}

/// Model of a parse error: failure offset into the input plus kind.
pub struct GError {
    pub pos: int,
    pub kind: GErrorKind,
}

pub open spec fn eof_at(pos: int) -> GError {
    GError { pos, kind: GErrorKind::Eof }
}

pub open spec fn char_at(pos: int, found: u8, expected: Seq<u8>) -> GError {
    GError { pos, kind: GErrorKind::Char { found, expected } }
}

/// A UTF-8 continuation byte; such bytes do not start a character and do not
/// advance the column count.
pub open spec fn is_continuation(b: u8) -> bool {
    128 <= b < 192
}

/// The 1-indexed line and column of byte offset `idx`: lines are counted by
/// newline bytes before `idx`, columns by character-starting bytes since the
/// last newline.
pub open spec fn line_col(input: Seq<u8>, idx: int) -> (int, int)
    decreases idx,
{
    if idx <= 0 {
        (1, 1)
    } else {
        let prev = line_col(input, idx - 1);
        if input[idx - 1] == 10 {
            (prev.0 + 1, 1)
        } else if is_continuation(input[idx - 1]) {
            prev
        } else {
            (prev.0, prev.1 + 1)
        }
    }
}

#[derive(Debug)]
pub struct ParseErrorContext {
    pub line: usize,
    pub column: usize,
}

impl ParseErrorContext {
    /// Compute the line and column of byte offset `idx` by one scan of the
    /// input up to `idx` (clipped to the input's end).
    pub fn new(input: &[u8], idx: usize) -> (r: ParseErrorContext)
        requires
            input@.len() < usize::MAX,
        ensures
            ({
                let end = if idx <= input@.len() { idx as int } else { input@.len() as int };
                r.line == line_col(input@, end).0 && r.column == line_col(input@, end).1
            }),
    {
        let end = if idx < input.len() {
            idx
        } else {
            input.len()
        };

        let mut line: usize = 1;
        let mut column: usize = 1;
        let mut i: usize = 0;

        while i < end
            invariant
                0 <= i <= end <= input@.len() < usize::MAX,
                line as int == line_col(input@, i as int).0,
                column as int == line_col(input@, i as int).1,
                line <= i + 1,
                column <= i + 1,
            decreases end - i,
        {
            let b = *vstd::slice::slice_index_get(input, i);
            if b == 10 {
                line = line + 1;
                column = 1;
            } else if !(128 <= b && b < 192) {
                column = column + 1;
            }
            i = i + 1;
        }

        ParseErrorContext { line, column }
    }
}

#[derive(Debug)]
pub enum ParseErrorKind {
    UnexpectedEndOfInput,
    UnexpectedCharacter(u8, Vec<u8>),
}

impl ParseErrorKind {
    /// Whether this kind realises the model kind `k`.
    pub open spec fn matches(&self, k: GErrorKind) -> bool {
        match (self, k) {
            (ParseErrorKind::UnexpectedEndOfInput, GErrorKind::Eof) => true,
            (
                ParseErrorKind::UnexpectedCharacter(f, exp),
                GErrorKind::Char { found, expected },
            ) => *f == found && exp@ == expected,
            _ => false,
        }
    }
}

#[derive(Debug)]
pub struct ParseError {
    pub ctx: ParseErrorContext,
    pub kind: ParseErrorKind,
}

impl ParseError {
    /// Whether this error reports the model error `e` raised against `input`:
    /// same kind, and line and column computed from `e`'s byte offset.
    pub open spec fn matches(&self, input: Seq<u8>, e: GError) -> bool {
        &&& 0 <= e.pos <= input.len()
        &&& self.ctx.line == line_col(input, e.pos).0
        &&& self.ctx.column == line_col(input, e.pos).1
        &&& self.kind.matches(e.kind)
    }

    /// Build an error of kind `kind` positioned at byte offset `idx`.
    pub fn new(input: &[u8], idx: usize, kind: ParseErrorKind) -> (r: ParseError)
        requires
            input@.len() < usize::MAX,
            idx <= input@.len(),
        ensures
            r.ctx.line == line_col(input@, idx as int).0,
            r.ctx.column == line_col(input@, idx as int).1,
            r.kind == kind,
    {
        ParseError { ctx: ParseErrorContext::new(input, idx), kind }
    }
}

} // verus!
