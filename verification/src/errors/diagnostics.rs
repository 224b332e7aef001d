//! Rendering errors into human-oriented records anchored to line and column.
//!
//! Line and column are 1-indexed and computed over bytes, consistent with
//! the byte-offset spans used everywhere else. This stage only reads: it
//! never re-parses.

use crate::errors::{error_model, ErrorModel, ExprError, ExprErrorS, SyntaxError};
use vstd::prelude::*;
use vstd::string::StringExecFns;
use vstd::string::StringSliceAdditionalSpecFns;

verus! {

/// One rendered error: a 1-indexed line and column resolved from the error's
/// span start, and a human-readable message.
#[derive(Debug, Clone, PartialEq)]
pub struct Diagnostic {
    pub line: usize,
    pub column: usize,
    pub message: String,
}

/// How many newline bytes lie strictly before `off`.
pub open spec fn count_newlines(s: Seq<u8>, off: int) -> int
    decreases off,
{
    if off <= 0 {
        0
    } else {
        count_newlines(s, off - 1) + if s[off - 1] == 10 {
            1int
        } else {
            0int
        }
    }
}

/// The position just after the last newline strictly before `off`: where the
/// line holding `off` begins.
pub open spec fn line_start(s: Seq<u8>, off: int) -> int
    decreases off,
{
    if off <= 0 {
        0
    } else if s[off - 1] == 10 {
        off
    } else {
        line_start(s, off - 1)
    }
}

/// The 1-indexed line of byte offset `off`.
pub open spec fn line_of(s: Seq<u8>, off: int) -> int {
    count_newlines(s, off) + 1
}

/// The 1-indexed column of byte offset `off`.
pub open spec fn col_of(s: Seq<u8>, off: int) -> int {
    off - line_start(s, off) + 1
}

/// An error span's start forced into the source: diagnostics never read past
/// the end.
pub open spec fn clamped_offset(s: Seq<u8>, off: int) -> int {
    if off <= s.len() {
        off
    } else {
        s.len() as int
    }
}

/// The expected-token names joined with `, `.
pub open spec fn comma_join(l: Seq<Seq<char>>) -> Seq<char>
    decreases l.len(),
{
    if l.len() == 0 {
        Seq::empty()
    } else if l.len() == 1 {
        l[0]
    } else {
        comma_join(l.drop_last()) + ", "@ + l.last()
    }
}

/// The rendered message of an error.
pub open spec fn message_of(e: ErrorModel) -> Seq<char> {
    match e {
        ErrorModel::Lexical { .. } => "unrecognized character sequence"@,
        ErrorModel::UnrecognizedToken { token, expected, .. } => "unrecognized token "@ + token
            + ", expected one of: "@ + comma_join(expected),
        ErrorModel::UnrecognizedEof { expected, .. } => "unrecognized end of input, expected one of: "@
            + comma_join(expected),
        ErrorModel::ExtraToken { token, .. } => "extra token "@ + token,
        ErrorModel::InvalidToken { .. } => "invalid token"@,
    }
}

/// The expected-token names joined with `, `.
fn join_comma(items: &Vec<String>) -> (s: String)
    ensures
        s@ == comma_join(items.deep_view()),
{
    let ghost dv = items.deep_view();
    let mut s = String::new();
    let mut i: usize = 0;
    while i < items.len()
        invariant
            i <= items@.len(),
            dv == items.deep_view(),
            dv.len() == items@.len(),
            s@ == comma_join(dv.take(i as int)),
        decreases items@.len() - i,
    {
        if i > 0 {
            s.append(", ");
        }
        s.append(items[i].as_str());
        proof {
            assert(dv.take(i + 1).drop_last() =~= dv.take(i as int));
            assert(dv.take(i + 1).last() == dv[i as int]);
            assert(dv[i as int] == items@[i as int]@);
            if i == 0 {
                assert(s@ =~= comma_join(dv.take(i + 1)));
            } else {
                assert(s@ =~= comma_join(dv.take(i as int)) + ", "@ + dv[i as int]);
            }
        }
        i = i + 1;
    }
    proof {
        assert(dv.take(dv.len() as int) =~= dv);
    }
    s
}

/// The rendered message of one spanned error.
fn message_for(err: &ExprErrorS) -> (msg: String)
    ensures
        msg@ == message_of(error_model(*err)),
{
    match &err.0 {
        ExprError::LexicalError(_) => String::from_str("unrecognized character sequence"),
        ExprError::SyntaxError(se) => match se {
            SyntaxError::UnrecognizedToken { token, expected } => {
                let mut m = String::from_str("unrecognized token ");
                m.append(token.as_str());
                m.append(", expected one of: ");
                let joined = join_comma(expected);
                m.append(joined.as_str());
                m
            },
            SyntaxError::UnrecognizedEOF { expected } => {
                let mut m = String::from_str("unrecognized end of input, expected one of: ");
                let joined = join_comma(expected);
                m.append(joined.as_str());
                m
            },
            SyntaxError::ExtraToken { token } => {
                let mut m = String::from_str("extra token ");
                m.append(token.as_str());
                m
            },
            SyntaxError::InvalidToken => String::from_str("invalid token"),
        },
    }
}

/// The 1-indexed line and column of byte offset `off`.
fn line_col_at(src: &[u8], off: usize) -> (lc: (usize, usize))
    requires
        off <= src@.len(),
        src@.len() < usize::MAX,
    ensures
        lc.0 as int == line_of(src@, off as int),
        lc.1 as int == col_of(src@, off as int),
{
    let mut count: usize = 0;
    let mut ls: usize = 0;
    let mut i: usize = 0;
    while i < off
        invariant
            i <= off <= src@.len() < usize::MAX,
            count == count_newlines(src@, i as int),
            ls == line_start(src@, i as int),
            count <= i,
            ls <= i,
        decreases off - i,
    {
        if src[i] == 10 {
            count = count + 1;
            ls = i + 1;
        }
        i = i + 1;
    }
    (count + 1, off - ls + 1)
}

/// Resolve every error of a parse to a line, a column and a message over the
/// source it came from. One record per error, in the same order.
pub fn get_diagnostics(errors: &Vec<ExprErrorS>, source: &str) -> (ds: Vec<Diagnostic>)
    requires
        source.spec_bytes().len() < usize::MAX,
    ensures
        ds@.len() == errors@.len(),
        forall|i: int|
            0 <= i < errors@.len() ==> {
                let e = error_model(#[trigger] errors@[i]);
                let off = clamped_offset(source.spec_bytes(), e.start());
                &&& ds@[i].line as int == line_of(source.spec_bytes(), off)
                &&& ds@[i].column as int == col_of(source.spec_bytes(), off)
                &&& ds@[i].message@ == message_of(e)
            },
{
    let src = source.as_bytes();
    let n = src.len();
    let mut ds: Vec<Diagnostic> = Vec::new();
    let mut i: usize = 0;
    while i < errors.len()
        invariant
            i <= errors@.len(),
            ds@.len() == i,
            src@ == source.spec_bytes(),
            n == src@.len(),
            n < usize::MAX,
            forall|k: int|
                0 <= k < i ==> {
                    let e = error_model(#[trigger] errors@[k]);
                    let off = clamped_offset(source.spec_bytes(), e.start());
                    &&& ds@[k].line as int == line_of(source.spec_bytes(), off)
                    &&& ds@[k].column as int == col_of(source.spec_bytes(), off)
                    &&& ds@[k].message@ == message_of(e)
                },
        decreases errors@.len() - i,
    {
        let start = errors[i].1.start;
        let off = if start > n {
            n
        } else {
            start
        };
        let lc = line_col_at(src, off);
        let message = message_for(&errors[i]);
        ds.push(Diagnostic { line: lc.0, column: lc.1, message });
        i = i + 1;
    }
    ds
}

} // verus!
