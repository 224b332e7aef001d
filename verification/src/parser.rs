//! Parsing source code in to expressions.
//!
//! The grammar, loosest-binding first: an additive level (`+`, `-`) over a
//! multiplicative level (`*`, `/`) over atoms (a number, or a parenthesized
//! expression), every level left-associative. A node's span runs from the
//! first to the last token its production consumed; a parenthesized
//! expression keeps the span of the inner expression.

use crate::ast::{Expr, ExprInfixOp, ExprKind, ExprLiteral, ExprModel, OpInfix};
use crate::errors::{ErrorModel, ExprError, ExprErrorS, ExprResult, SyntaxError};
use crate::lexer::{
    is_whitespace_byte, lemma_skip_whitespace_bounds, lemma_skip_whitespace_region, lex,
    lex_models, skip_whitespace, spec_lex, LexItemModel, Token, TokenModel,
};
use crate::span::Span;
use vstd::prelude::*;
use vstd::string::StringExecFns;
use vstd::string::StringSliceAdditionalSpecFns;

verus! {

/// One token as the parser sees it: start offset, token, end offset.
pub type TokenTriple = (usize, Token, usize);

/// Mathematical image of a token triple.
pub open spec fn triple_model(t: TokenTriple) -> (int, TokenModel, int) {
    (t.0 as int, t.1.model(), t.2 as int)
}

/// The mathematical image of a token list.
pub open spec fn tok_models(toks: Seq<TokenTriple>) -> Seq<(int, TokenModel, int)> {
    toks.map_values(|t: TokenTriple| triple_model(t))
}

/// The mathematical image of an error list.
pub open spec fn err_models(errs: Seq<ExprErrorS>) -> Seq<ErrorModel> {
    errs.map_values(|e: ExprErrorS| crate::errors::error_model(e))
}

/// The tokens of a scan, in order, with the error items left out.
pub open spec fn tokens_of(items: Seq<LexItemModel>) -> Seq<(int, TokenModel, int)>
    decreases items.len(),
{
    if items.len() == 0 {
        Seq::empty()
    } else {
        let rest = tokens_of(items.drop_last());
        match items.last() {
            LexItemModel::Token { start, token, end } => rest.push((start, token, end)),
            LexItemModel::Error { .. } => rest,
        }
    }
}

/// The lexical errors of a scan, in order, with the token items left out.
pub open spec fn lex_errors_of(items: Seq<LexItemModel>) -> Seq<ErrorModel>
    decreases items.len(),
{
    if items.len() == 0 {
        Seq::empty()
    } else {
        let rest = lex_errors_of(items.drop_last());
        match items.last() {
            LexItemModel::Token { .. } => rest,
            LexItemModel::Error { err } => rest.push(err),
        }
    }
}

/// The names the parser reports for the tokens it did not expect.
pub open spec fn token_name(t: TokenModel) -> Seq<char> {
    match t {
        TokenModel::LParan => "\"(\""@,
        TokenModel::RParan => "\")\""@,
        TokenModel::Plus => "\"+\""@,
        TokenModel::Minus => "\"-\""@,
        TokenModel::Slash => "\"/\""@,
        TokenModel::Astrisk => "\"*\""@,
        TokenModel::Number(_) => "number"@,
    }
}

/// What may begin an expression: an opening parenthesis or a number.
pub open spec fn expected_atom() -> Seq<Seq<char>> {
    seq!["\"(\""@, "number"@]
}

/// What may follow a complete expression inside parentheses: the closing
/// parenthesis or any infix operator.
pub open spec fn expected_after_group() -> Seq<Seq<char>> {
    seq!["\")\""@, "\"*\""@, "\"+\""@, "\"-\""@, "\"/\""@]
}

/// Where the parser reports the end of input: after the last token, or at
/// the very start of an empty token list.
pub open spec fn eof_at(t: Seq<(int, TokenModel, int)>) -> int {
    if t.len() == 0 {
        0
    } else {
        t[t.len() - 1].2
    }
}

/// The outcome of one grammar production: a node and the position after the
/// tokens it consumed, or the first syntax error.
pub enum ParseStep {
    Done { expr: ExprModel, next: nat },
    Fail { err: ErrorModel },
}

/// `v` forced into `[lo, hi]` (or to `hi` where the bounds cross). The
/// productions below advance their position with this, which makes progress
/// plain to the termination checker; on every reachable path the clamp
/// leaves its argument unchanged.
pub open spec fn clamped(v: nat, lo: nat, hi: nat) -> nat {
    if lo > hi {
        hi
    } else if v < lo {
        lo
    } else if v > hi {
        hi
    } else {
        v
    }
}

/// An atom: a number literal, or a parenthesized expression, which keeps the
/// inner node and its span.
pub open spec fn sp_atom(t: Seq<(int, TokenModel, int)>, i: nat) -> ParseStep
    decreases t.len() - i, 0nat,
    when i <= t.len()
{
    if i >= t.len() {
        ParseStep::Fail {
            err: ErrorModel::UnrecognizedEof {
                expected: expected_atom(),
                start: eof_at(t),
                end: eof_at(t),
            },
        }
    } else {
        match t[i as int].1 {
            TokenModel::Number(text) => ParseStep::Done {
                expr: ExprModel::Num { text, start: t[i as int].0, end: t[i as int].2 },
                next: i + 1,
            },
            TokenModel::LParan => match sp_add(t, i + 1) {
                ParseStep::Fail { err } => ParseStep::Fail { err },
                ParseStep::Done { expr, next } => {
                    if next >= t.len() {
                        ParseStep::Fail {
                            err: ErrorModel::UnrecognizedEof {
                                expected: expected_after_group(),
                                start: eof_at(t),
                                end: eof_at(t),
                            },
                        }
                    } else if t[next as int].1 is RParan {
                        ParseStep::Done { expr, next: next + 1 }
                    } else {
                        ParseStep::Fail {
                            err: ErrorModel::UnrecognizedToken {
                                token: token_name(t[next as int].1),
                                expected: expected_after_group(),
                                start: t[next as int].0,
                                end: t[next as int].2,
                            },
                        }
                    }
                },
            },
            _ => ParseStep::Fail {
                err: ErrorModel::UnrecognizedToken {
                    token: token_name(t[i as int].1),
                    expected: expected_atom(),
                    start: t[i as int].0,
                    end: t[i as int].2,
                },
            },
        }
    }
}

/// The multiplicative tail: while `*` or `/` follows, bind another atom to
/// the left. `i0` is where the whole production began; `acc` is the node
/// built so far.
pub open spec fn sp_mul_tail(
    t: Seq<(int, TokenModel, int)>,
    i0: nat,
    j: nat,
    acc: ExprModel,
) -> ParseStep
    decreases t.len() - j, 1nat,
    when j <= t.len() && i0 < t.len()
{
    if j >= t.len() || !(t[j as int].1 is Astrisk || t[j as int].1 is Slash) {
        ParseStep::Done { expr: acc, next: j }
    } else {
        let op = if t[j as int].1 is Astrisk {
            OpInfix::Multiply
        } else {
            OpInfix::Divide
        };
        match sp_atom(t, j + 1) {
            ParseStep::Fail { err } => ParseStep::Fail { err },
            ParseStep::Done { expr: rhs, next } => {
                let k = clamped(next, j + 2, t.len());
                let node = ExprModel::Infix {
                    lt: Box::new(acc),
                    op,
                    rt: Box::new(rhs),
                    start: t[i0 as int].0,
                    end: t[k - 1].2,
                };
                sp_mul_tail(t, i0, k, node)
            },
        }
    }
}

/// The multiplicative level: an atom, then its tail.
pub open spec fn sp_mul(t: Seq<(int, TokenModel, int)>, i: nat) -> ParseStep
    decreases t.len() - i, 2nat,
    when i <= t.len()
{
    match sp_atom(t, i) {
        ParseStep::Fail { err } => ParseStep::Fail { err },
        ParseStep::Done { expr, next } => {
            if i < t.len() {
                sp_mul_tail(t, i, clamped(next, i + 1, t.len()), expr)
            } else {
                ParseStep::Done { expr, next }
            }
        },
    }
}

/// The additive tail: while `+` or `-` follows, bind another multiplicative
/// expression to the left.
pub open spec fn sp_add_tail(
    t: Seq<(int, TokenModel, int)>,
    i0: nat,
    j: nat,
    acc: ExprModel,
) -> ParseStep
    decreases t.len() - j, 3nat,
    when j <= t.len() && i0 < t.len()
{
    if j >= t.len() || !(t[j as int].1 is Plus || t[j as int].1 is Minus) {
        ParseStep::Done { expr: acc, next: j }
    } else {
        let op = if t[j as int].1 is Plus {
            OpInfix::Add
        } else {
            OpInfix::Subtract
        };
        match sp_mul(t, j + 1) {
            ParseStep::Fail { err } => ParseStep::Fail { err },
            ParseStep::Done { expr: rhs, next } => {
                let k = clamped(next, j + 2, t.len());
                let node = ExprModel::Infix {
                    lt: Box::new(acc),
                    op,
                    rt: Box::new(rhs),
                    start: t[i0 as int].0,
                    end: t[k - 1].2,
                };
                sp_add_tail(t, i0, k, node)
            },
        }
    }
}

/// The additive level, the loosest of the grammar: a multiplicative
/// expression, then its tail.
pub open spec fn sp_add(t: Seq<(int, TokenModel, int)>, i: nat) -> ParseStep
    decreases t.len() - i, 4nat,
    when i <= t.len()
{
    match sp_mul(t, i) {
        ParseStep::Fail { err } => ParseStep::Fail { err },
        ParseStep::Done { expr, next } => {
            if i < t.len() {
                sp_add_tail(t, i, clamped(next, i + 1, t.len()), expr)
            } else {
                ParseStep::Done { expr, next }
            }
        },
    }
}

/// A whole token list as one expression: the additive level, with anything
/// left over reported as an extra token.
pub open spec fn sp_parse(t: Seq<(int, TokenModel, int)>) -> Result<ExprModel, ErrorModel> {
    match sp_add(t, 0) {
        ParseStep::Fail { err } => Err(err),
        ParseStep::Done { expr, next } => {
            if next < t.len() {
                Err(
                    ErrorModel::ExtraToken {
                        token: token_name(t[next as int].1),
                        start: t[next as int].0,
                        end: t[next as int].2,
                    },
                )
            } else {
                Ok(expr)
            }
        },
    }
}

/// What a whole pipeline run yields: the specification `parse` is held to.
/// The scan's lexical errors come first, in scan order; at most one syntax
/// error follows; the tree is returned only where no error at all was found.
pub open spec fn spec_parse(s: Seq<u8>) -> Result<ExprModel, Seq<ErrorModel>> {
    let items = spec_lex(s);
    let lex_errs = lex_errors_of(items);
    match sp_parse(tokens_of(items)) {
        Ok(expr) => {
            if lex_errs.len() == 0 {
                Ok(expr)
            } else {
                Err(lex_errs)
            }
        },
        Err(err) => Err(lex_errs.push(err)),
    }
}

proof fn lemma_atom_bounds(t: Seq<(int, TokenModel, int)>, i: nat)
    requires
        i <= t.len(),
    ensures
        sp_atom(t, i) matches ParseStep::Done { next, .. } ==> i < next <= t.len(),
    decreases t.len() - i, 0nat,
{
    if i < t.len() && t[i as int].1 is LParan {
        lemma_add_bounds(t, i + 1);
    }
}

proof fn lemma_mul_tail_bounds(t: Seq<(int, TokenModel, int)>, i0: nat, j: nat, acc: ExprModel)
    requires
        j <= t.len(),
        i0 < t.len(),
    ensures
        sp_mul_tail(t, i0, j, acc) matches ParseStep::Done { next, .. } ==> j <= next <= t.len(),
    decreases t.len() - j, 1nat,
{
    if j < t.len() && (t[j as int].1 is Astrisk || t[j as int].1 is Slash) {
        lemma_atom_bounds(t, j + 1);
        let op = if t[j as int].1 is Astrisk {
            OpInfix::Multiply
        } else {
            OpInfix::Divide
        };
        match sp_atom(t, j + 1) {
            ParseStep::Fail { .. } => {},
            ParseStep::Done { expr: rhs, next } => {
                let k = clamped(next, j + 2, t.len());
                let node = ExprModel::Infix {
                    lt: Box::new(acc),
                    op,
                    rt: Box::new(rhs),
                    start: t[i0 as int].0,
                    end: t[k - 1].2,
                };
                lemma_mul_tail_bounds(t, i0, k, node);
            },
        }
    }
}

proof fn lemma_mul_bounds(t: Seq<(int, TokenModel, int)>, i: nat)
    requires
        i <= t.len(),
    ensures
        sp_mul(t, i) matches ParseStep::Done { next, .. } ==> i < next <= t.len(),
    decreases t.len() - i, 2nat,
{
    lemma_atom_bounds(t, i);
    match sp_atom(t, i) {
        ParseStep::Fail { .. } => {},
        ParseStep::Done { expr, next } => {
            if i < t.len() {
                lemma_mul_tail_bounds(t, i, clamped(next, i + 1, t.len()), expr);
            }
        },
    }
}

proof fn lemma_add_tail_bounds(t: Seq<(int, TokenModel, int)>, i0: nat, j: nat, acc: ExprModel)
    requires
        j <= t.len(),
        i0 < t.len(),
    ensures
        sp_add_tail(t, i0, j, acc) matches ParseStep::Done { next, .. } ==> j <= next <= t.len(),
    decreases t.len() - j, 3nat,
{
    if j < t.len() && (t[j as int].1 is Plus || t[j as int].1 is Minus) {
        lemma_mul_bounds(t, j + 1);
        let op = if t[j as int].1 is Plus {
            OpInfix::Add
        } else {
            OpInfix::Subtract
        };
        match sp_mul(t, j + 1) {
            ParseStep::Fail { .. } => {},
            ParseStep::Done { expr: rhs, next } => {
                let k = clamped(next, j + 2, t.len());
                let node = ExprModel::Infix {
                    lt: Box::new(acc),
                    op,
                    rt: Box::new(rhs),
                    start: t[i0 as int].0,
                    end: t[k - 1].2,
                };
                lemma_add_tail_bounds(t, i0, k, node);
            },
        }
    }
}

proof fn lemma_add_bounds(t: Seq<(int, TokenModel, int)>, i: nat)
    requires
        i <= t.len(),
    ensures
        sp_add(t, i) matches ParseStep::Done { next, .. } ==> i < next <= t.len(),
    decreases t.len() - i, 4nat,
{
    lemma_mul_bounds(t, i);
    match sp_mul(t, i) {
        ParseStep::Fail { .. } => {},
        ParseStep::Done { expr, next } => {
            if i < t.len() {
                lemma_add_tail_bounds(t, i, clamped(next, i + 1, t.len()), expr);
            }
        },
    }
}

proof fn lemma_mul_tail_extent(t: Seq<(int, TokenModel, int)>, i0: nat, j: nat, acc: ExprModel)
    requires
        j <= t.len(),
        i0 < t.len(),
        i0 < j,
        acc.start() == t[i0 as int].0,
        acc.end() == t[j - 1].2,
    ensures
        sp_mul_tail(t, i0, j, acc) matches ParseStep::Done { expr, next } ==> expr.start()
            == t[i0 as int].0 && expr.end() == t[next - 1].2 && i0 < next <= t.len(),
    decreases t.len() - j,
{
    if j < t.len() && (t[j as int].1 is Astrisk || t[j as int].1 is Slash) {
        lemma_atom_bounds(t, j + 1);
        let op = if t[j as int].1 is Astrisk {
            OpInfix::Multiply
        } else {
            OpInfix::Divide
        };
        match sp_atom(t, j + 1) {
            ParseStep::Fail { .. } => {},
            ParseStep::Done { expr: rhs, next } => {
                let k = clamped(next, j + 2, t.len());
                let node = ExprModel::Infix {
                    lt: Box::new(acc),
                    op,
                    rt: Box::new(rhs),
                    start: t[i0 as int].0,
                    end: t[k - 1].2,
                };
                lemma_mul_tail_extent(t, i0, k, node);
            },
        }
    }
}

proof fn lemma_add_tail_extent(t: Seq<(int, TokenModel, int)>, i0: nat, j: nat, acc: ExprModel)
    requires
        j <= t.len(),
        i0 < t.len(),
        i0 < j,
        acc.start() == t[i0 as int].0,
        acc.end() == t[j - 1].2,
    ensures
        sp_add_tail(t, i0, j, acc) matches ParseStep::Done { expr, next } ==> expr.start()
            == t[i0 as int].0 && expr.end() == t[next - 1].2 && i0 < next <= t.len(),
    decreases t.len() - j,
{
    if j < t.len() && (t[j as int].1 is Plus || t[j as int].1 is Minus) {
        lemma_mul_bounds(t, j + 1);
        let op = if t[j as int].1 is Plus {
            OpInfix::Add
        } else {
            OpInfix::Subtract
        };
        match sp_mul(t, j + 1) {
            ParseStep::Fail { .. } => {},
            ParseStep::Done { expr: rhs, next } => {
                let k = clamped(next, j + 2, t.len());
                let node = ExprModel::Infix {
                    lt: Box::new(acc),
                    op,
                    rt: Box::new(rhs),
                    start: t[i0 as int].0,
                    end: t[k - 1].2,
                };
                lemma_add_tail_extent(t, i0, k, node);
            },
        }
    }
}

proof fn lemma_add_extent(t: Seq<(int, TokenModel, int)>, i: nat)
    requires
        i < t.len(),
        !(t[i as int].1 is LParan),
    ensures
        sp_add(t, i) matches ParseStep::Done { expr, next } ==> expr.start() == t[i as int].0
            && expr.end() == t[next - 1].2 && i < next <= t.len(),
{
    lemma_atom_bounds(t, i);
    match sp_atom(t, i) {
        ParseStep::Fail { .. } => {},
        ParseStep::Done { expr: a0, next: n0 } => {
            let k0 = clamped(n0, i + 1, t.len());
            lemma_mul_tail_extent(t, i, k0, a0);
            match sp_mul(t, i) {
                ParseStep::Fail { .. } => {},
                ParseStep::Done { expr: m0, next: n1 } => {
                    let k1 = clamped(n1, i + 1, t.len());
                    lemma_add_tail_extent(t, i, k1, m0);
                },
            }
        },
    }
}

/// The token list is in source order: every token covers at least one byte
/// and ends no later than any later token begins.
pub open spec fn tokens_ordered(t: Seq<(int, TokenModel, int)>) -> bool {
    &&& forall|a: int| 0 <= a < t.len() ==> (#[trigger] t[a]).0 < t[a].2
    &&& forall|a: int, b: int| 0 <= a < b < t.len() ==> (#[trigger] t[a]).2 <= (#[trigger] t[b]).0
}

proof fn lemma_atom_wf(t: Seq<(int, TokenModel, int)>, i: nat)
    requires
        i <= t.len(),
        tokens_ordered(t),
    ensures
        sp_atom(t, i) matches ParseStep::Done { expr, next } ==> expr.span_well_formed()
            && expr.has_no_error_node() && t[i as int].0 <= expr.start() && expr.end() <= t[next
            - 1].2,
    decreases t.len() - i, 0nat,
{
    if i < t.len() && t[i as int].1 is LParan {
        lemma_add_bounds(t, i + 1);
        lemma_add_wf(t, i + 1);
    }
}

proof fn lemma_mul_tail_wf(t: Seq<(int, TokenModel, int)>, i0: nat, j: nat, acc: ExprModel)
    requires
        j <= t.len(),
        i0 < t.len(),
        i0 < j,
        tokens_ordered(t),
        acc.span_well_formed(),
        acc.has_no_error_node(),
        t[i0 as int].0 <= acc.start(),
        acc.end() <= t[j - 1].2,
    ensures
        sp_mul_tail(t, i0, j, acc) matches ParseStep::Done { expr, next } ==> expr.span_well_formed()
            && expr.has_no_error_node() && t[i0 as int].0 <= expr.start() && expr.end() <= t[next
            - 1].2,
    decreases t.len() - j,
{
    if j < t.len() && (t[j as int].1 is Astrisk || t[j as int].1 is Slash) {
        lemma_atom_bounds(t, j + 1);
        lemma_atom_wf(t, j + 1);
        let op = if t[j as int].1 is Astrisk {
            OpInfix::Multiply
        } else {
            OpInfix::Divide
        };
        match sp_atom(t, j + 1) {
            ParseStep::Fail { .. } => {},
            ParseStep::Done { expr: rhs, next } => {
                let k = clamped(next, j + 2, t.len());
                let node = ExprModel::Infix {
                    lt: Box::new(acc),
                    op,
                    rt: Box::new(rhs),
                    start: t[i0 as int].0,
                    end: t[k - 1].2,
                };
                lemma_mul_tail_wf(t, i0, k, node);
            },
        }
    }
}

proof fn lemma_mul_wf(t: Seq<(int, TokenModel, int)>, i: nat)
    requires
        i <= t.len(),
        tokens_ordered(t),
    ensures
        sp_mul(t, i) matches ParseStep::Done { expr, next } ==> expr.span_well_formed()
            && expr.has_no_error_node() && t[i as int].0 <= expr.start() && expr.end() <= t[next
            - 1].2,
    decreases t.len() - i, 2nat,
{
    lemma_atom_bounds(t, i);
    lemma_atom_wf(t, i);
    match sp_atom(t, i) {
        ParseStep::Fail { .. } => {},
        ParseStep::Done { expr, next } => {
            if i < t.len() {
                lemma_mul_tail_wf(t, i, clamped(next, i + 1, t.len()), expr);
            }
        },
    }
}

proof fn lemma_add_tail_wf(t: Seq<(int, TokenModel, int)>, i0: nat, j: nat, acc: ExprModel)
    requires
        j <= t.len(),
        i0 < t.len(),
        i0 < j,
        tokens_ordered(t),
        acc.span_well_formed(),
        acc.has_no_error_node(),
        t[i0 as int].0 <= acc.start(),
        acc.end() <= t[j - 1].2,
    ensures
        sp_add_tail(t, i0, j, acc) matches ParseStep::Done { expr, next } ==> expr.span_well_formed()
            && expr.has_no_error_node() && t[i0 as int].0 <= expr.start() && expr.end() <= t[next
            - 1].2,
    decreases t.len() - j,
{
    if j < t.len() && (t[j as int].1 is Plus || t[j as int].1 is Minus) {
        lemma_mul_bounds(t, j + 1);
        lemma_mul_wf(t, j + 1);
        let op = if t[j as int].1 is Plus {
            OpInfix::Add
        } else {
            OpInfix::Subtract
        };
        match sp_mul(t, j + 1) {
            ParseStep::Fail { .. } => {},
            ParseStep::Done { expr: rhs, next } => {
                let k = clamped(next, j + 2, t.len());
                let node = ExprModel::Infix {
                    lt: Box::new(acc),
                    op,
                    rt: Box::new(rhs),
                    start: t[i0 as int].0,
                    end: t[k - 1].2,
                };
                lemma_add_tail_wf(t, i0, k, node);
            },
        }
    }
}

proof fn lemma_add_wf(t: Seq<(int, TokenModel, int)>, i: nat)
    requires
        i <= t.len(),
        tokens_ordered(t),
    ensures
        sp_add(t, i) matches ParseStep::Done { expr, next } ==> expr.span_well_formed()
            && expr.has_no_error_node() && t[i as int].0 <= expr.start() && expr.end() <= t[next
            - 1].2,
    decreases t.len() - i, 4nat,
{
    lemma_mul_bounds(t, i);
    lemma_mul_wf(t, i);
    match sp_mul(t, i) {
        ParseStep::Fail { .. } => {},
        ParseStep::Done { expr, next } => {
            if i < t.len() {
                lemma_add_tail_wf(t, i, clamped(next, i + 1, t.len()), expr);
            }
        },
    }
}

/// Adjacent order extends to any two positions.
proof fn lemma_order_chain(t: Seq<(int, TokenModel, int)>, a: int, b: int)
    requires
        0 <= a < b < t.len(),
        forall|k: int| 0 <= k < t.len() ==> (#[trigger] t[k]).0 < t[k].2,
        forall|k: int| 0 <= k < t.len() - 1 ==> (#[trigger] t[k]).2 <= t[k + 1].0,
    ensures
        t[a].2 <= t[b].0,
    decreases b - a,
{
    if a + 1 < b {
        lemma_order_chain(t, a + 1, b);
    }
}

/// A scan without lexical errors leaves an ordered token list.
proof fn lemma_lex_tokens_ordered(s: Seq<u8>)
    requires
        lex_errors_of(spec_lex(s)).len() == 0,
    ensures
        tokens_ordered(tokens_of(spec_lex(s))),
{
    let items = spec_lex(s);
    let t = tokens_of(items);
    lemma_all_tokens(items);
    crate::lexer::lemma_lex_span_accuracy(s);
    crate::lexer::lemma_lex_from_ordered(s, 0);
    assert forall|k: int| 0 <= k < t.len() implies (#[trigger] t[k]).0 < t[k].2 by {
        assert(crate::lexer::span_accurate(s, items[k]));
    }
    assert forall|k: int| 0 <= k < t.len() - 1 implies (#[trigger] t[k]).2 <= t[k + 1].0 by {
        assert(items[k].item_end() <= items[k + 1].item_start());
    }
    assert forall|a: int, b: int| 0 <= a < b < t.len() implies (#[trigger] t[a]).2 <= (
    #[trigger] t[b]).0 by {
        lemma_order_chain(t, a, b);
    }
}

/// Law: every tree the pipeline accepts is span-well-formed — each composite
/// node's span encloses the spans of both its children, all the way down —
/// and holds no error sentinel, which stands only for a failed parse.
pub proof fn lemma_parse_span_enclosure(s: Seq<u8>)
    requires
        spec_parse(s) is Ok,
    ensures
        spec_parse(s)->Ok_0.span_well_formed(),
        spec_parse(s)->Ok_0.has_no_error_node(),
{
    let items = spec_lex(s);
    let t = tokens_of(items);
    lemma_all_tokens(items);
    lemma_lex_tokens_ordered(s);
    lemma_add_wf(t, 0);
}

/// A scan without lexical errors is all tokens, and its token list carries
/// them over one for one.
proof fn lemma_all_tokens(items: Seq<LexItemModel>)
    requires
        lex_errors_of(items).len() == 0,
    ensures
        tokens_of(items).len() == items.len(),
        forall|k: int|
            0 <= k < items.len() ==> ((#[trigger] items[k]) matches LexItemModel::Token {
                start,
                token,
                end,
            } && tokens_of(items)[k] == (start, token, end)),
    decreases items.len(),
{
    if items.len() > 0 {
        let rest = items.drop_last();
        match items.last() {
            LexItemModel::Error { .. } => {
                assert(false);
            },
            LexItemModel::Token { start, token, end } => {
                lemma_all_tokens(rest);
                assert forall|k: int|
                    0 <= k < items.len() implies ((#[trigger] items[k]) matches LexItemModel::Token {
                    start,
                    token,
                    end,
                } && tokens_of(items)[k] == (start, token, end)) by {
                    if k < items.len() - 1 {
                        assert(items[k] == rest[k]);
                        assert(tokens_of(items)[k] == tokens_of(rest)[k]);
                    }
                }
            },
        }
    }
}

/// Law: determinism. The pipeline's outcome is a function of the source
/// bytes alone: two outcomes of equal sources are structurally equal,
/// whether trees or error lists, and a rejecting outcome always carries at
/// least one error.
pub proof fn lemma_parse_deterministic(
    s: Seq<u8>,
    r1: Result<ExprModel, Seq<ErrorModel>>,
    r2: Result<ExprModel, Seq<ErrorModel>>,
)
    requires
        r1 == spec_parse(s),
        r2 == spec_parse(s),
    ensures
        r1 == r2,
        r1 is Err ==> r1->Err_0.len() > 0,
{
}

/// Law: for an accepted input whose expression is not wholly parenthesized
/// — its first token is not `(` — the root node's span is exactly the
/// trimmed extent of the meaningful input: the span lies inside the source,
/// it begins at the first non-whitespace byte, and every byte past its end
/// is whitespace. (A wholly parenthesized input keeps the inner expression's
/// span, which leaves the outer parentheses out.)
pub proof fn lemma_root_span_trimmed(s: Seq<u8>)
    requires
        spec_parse(s) is Ok,
        !(tokens_of(spec_lex(s))[0].1 is LParan),
    ensures
        ({
            let root = spec_parse(s)->Ok_0;
            &&& 0 <= root.start() < root.end() <= s.len()
            &&& root.start() == skip_whitespace(s, 0)
            &&& forall|i: int| 0 <= i < root.start() ==> is_whitespace_byte(#[trigger] s[i])
            &&& forall|i: int| root.end() <= i < s.len() ==> is_whitespace_byte(#[trigger] s[i])
        }),
{
    let items = spec_lex(s);
    let t = tokens_of(items);
    let root = spec_parse(s)->Ok_0;
    lemma_all_tokens(items);
    assert(items.len() > 0);
    lemma_add_bounds(t, 0);
    lemma_add_extent(t, 0);
    assert(root.start() == t[0].0 && root.end() == t[t.len() - 1].2);
    // the first token begins where the leading whitespace ends
    lemma_skip_whitespace_bounds(s, 0);
    let step = crate::lexer::spec_lex_step(s, 0);
    let p2 = step->Some_0.1;
    crate::lexer::lemma_step_skip(s, 0, p2);
    let q = skip_whitespace(s, 0);
    if q < s.len() && crate::lexer::is_digit_byte(s[q as int]) {
        crate::lexer::lemma_number_end_bounds(s, q);
    }
    assert(root.start() == q);
    lemma_skip_whitespace_region(s, 0);
    // everything after the last token is whitespace
    crate::lexer::lemma_lex_from_last_end(s, 0);
    assert(items.last().item_end() == root.end());
    // the span is not empty: its start byte is not whitespace, yet every
    // byte from its end on is
    lemma_skip_whitespace_stop(s, 0);
    assert(root.start() < root.end()) by {
        if root.end() <= root.start() {
            assert(is_whitespace_byte(s[q as int]));
        }
    }
}

/// The whitespace skip stops at the end of the input or at a byte that is
/// not whitespace.
proof fn lemma_skip_whitespace_stop(s: Seq<u8>, p: nat)
    requires
        p <= s.len(),
    ensures
        skip_whitespace(s, p) == s.len() || !is_whitespace_byte(
            s[skip_whitespace(s, p) as int],
        ),
    decreases s.len() - p,
{
    if p < s.len() && is_whitespace_byte(s[p as int]) {
        lemma_skip_whitespace_stop(s, p + 1);
    }
}

/// The expected-token list of a position where an expression must begin.
fn expected_atom_list() -> (v: Vec<String>)
    ensures
        v.deep_view() == expected_atom(),
{
    let mut v: Vec<String> = Vec::new();
    v.push(String::from_str("\"(\""));
    v.push(String::from_str("number"));
    proof {
        assert(v.deep_view() =~= expected_atom());
    }
    v
}

/// The expected-token list of a position just after a parenthesized
/// expression's inner expression.
fn expected_after_group_list() -> (v: Vec<String>)
    ensures
        v.deep_view() == expected_after_group(),
{
    let mut v: Vec<String> = Vec::new();
    v.push(String::from_str("\")\""));
    v.push(String::from_str("\"*\""));
    v.push(String::from_str("\"+\""));
    v.push(String::from_str("\"-\""));
    v.push(String::from_str("\"/\""));
    proof {
        assert(v.deep_view() =~= expected_after_group());
    }
    v
}

/// The reported name of a token.
fn token_name_of(t: &Token) -> (s: String)
    ensures
        s@ == token_name(t.model()),
{
    match t {
        Token::LParan => String::from_str("\"(\""),
        Token::RParan => String::from_str("\")\""),
        Token::Plus => String::from_str("\"+\""),
        Token::Minus => String::from_str("\"-\""),
        Token::Slash => String::from_str("\"/\""),
        Token::Astrisk => String::from_str("\"*\""),
        Token::Number(_) => String::from_str("number"),
    }
}

/// The unrecognized-end-of-input error, anchored after the last token.
fn eof_error(toks: &Vec<TokenTriple>, expected: Vec<String>) -> (e: ExprErrorS)
    ensures
        crate::errors::error_model(e) == (ErrorModel::UnrecognizedEof {
            expected: expected.deep_view(),
            start: eof_at(tok_models(toks@)),
            end: eof_at(tok_models(toks@)),
        }),
{
    let n = toks.len();
    let at = if n == 0 {
        0
    } else {
        toks[n - 1].2
    };
    (ExprError::SyntaxError(SyntaxError::UnrecognizedEOF { expected }), Span::new(at, at))
}

/// True of the tokens of the multiplicative level.
fn is_mul_op(t: &Token) -> (r: bool)
    ensures
        r == (t.model() is Astrisk || t.model() is Slash),
{
    match t {
        Token::Astrisk => true,
        Token::Slash => true,
        _ => false,
    }
}

/// True of the tokens of the additive level.
fn is_add_op(t: &Token) -> (r: bool)
    ensures
        r == (t.model() is Plus || t.model() is Minus),
{
    match t {
        Token::Plus => true,
        Token::Minus => true,
        _ => false,
    }
}

/// An atom: a number literal, or a parenthesized expression, which keeps
/// the inner node and its span.
fn p_atom(toks: &Vec<TokenTriple>, i: usize) -> (r: Result<(Expr, usize), ExprErrorS>)
    requires
        i <= toks@.len(),
    ensures
        match r {
            Ok(res) => {
                &&& i < res.1 <= toks@.len()
                &&& sp_atom(tok_models(toks@), i as nat) == (ParseStep::Done {
                    expr: res.0.model(),
                    next: res.1 as nat,
                })
            },
            Err(e) => sp_atom(tok_models(toks@), i as nat) == (ParseStep::Fail {
                err: crate::errors::error_model(e),
            }),
        },
    decreases toks@.len() - i, 0nat,
{
    let n = toks.len();
    if i >= n {
        return Err(eof_error(toks, expected_atom_list()));
    }
    let start = toks[i].0;
    let end = toks[i].2;
    match &toks[i].1 {
        Token::Number(text) => {
            let owned = vstd::slice::slice_to_vec(text.as_slice());
            let e = Expr::new(
                ExprKind::Literal(Box::new(ExprLiteral::Number(owned))),
                Span::new(start, end),
            );
            Ok((e, i + 1))
        },
        Token::LParan => {
            match p_add(toks, i + 1) {
                Err(e) => Err(e),
                Ok((expr, next)) => {
                    if next >= n {
                        Err(eof_error(toks, expected_after_group_list()))
                    } else {
                        match &toks[next].1 {
                            Token::RParan => Ok((expr, next + 1)),
                            _ => {
                                let tn = token_name_of(&toks[next].1);
                                Err(
                                    (
                                        ExprError::SyntaxError(
                                            SyntaxError::UnrecognizedToken {
                                                token: tn,
                                                expected: expected_after_group_list(),
                                            },
                                        ),
                                        Span::new(toks[next].0, toks[next].2),
                                    ),
                                )
                            },
                        }
                    }
                },
            }
        },
        _ => {
            let tn = token_name_of(&toks[i].1);
            Err(
                (
                    ExprError::SyntaxError(
                        SyntaxError::UnrecognizedToken { token: tn, expected: expected_atom_list() },
                    ),
                    Span::new(start, end),
                ),
            )
        },
    }
}

/// The multiplicative level: an atom, then every `*` or `/` bound to the
/// left.
fn p_mul(toks: &Vec<TokenTriple>, i: usize) -> (r: Result<(Expr, usize), ExprErrorS>)
    requires
        i <= toks@.len(),
    ensures
        match r {
            Ok(res) => {
                &&& i < res.1 <= toks@.len()
                &&& sp_mul(tok_models(toks@), i as nat) == (ParseStep::Done {
                    expr: res.0.model(),
                    next: res.1 as nat,
                })
            },
            Err(e) => sp_mul(tok_models(toks@), i as nat) == (ParseStep::Fail {
                err: crate::errors::error_model(e),
            }),
        },
    decreases toks@.len() - i, 2nat,
{
    let ghost m = tok_models(toks@);
    let n = toks.len();
    let mut acc: Expr;
    let mut j: usize;
    match p_atom(toks, i) {
        Err(e) => {
            return Err(e);
        },
        Ok((expr, next)) => {
            acc = expr;
            j = next;
        },
    }
    while j < n && is_mul_op(&toks[j].1)
        invariant
            i < j <= n,
            n == toks@.len(),
            m == tok_models(toks@),
            sp_mul(m, i as nat) == sp_mul_tail(m, i as nat, j as nat, acc.model()),
        decreases n - j,
    {
        let op = if is_mul_op_star(&toks[j].1) {
            OpInfix::Multiply
        } else {
            OpInfix::Divide
        };
        match p_atom(toks, j + 1) {
            Err(e) => {
                return Err(e);
            },
            Ok((rhs, next2)) => {
                let node = Expr::new(
                    ExprKind::InfixOp(Box::new(ExprInfixOp { lt: Box::new(acc), op, rt: Box::new(rhs) })),
                    Span::new(toks[i].0, toks[next2 - 1].2),
                );
                acc = node;
                j = next2;
            },
        }
    }
    Ok((acc, j))
}

/// True of exactly the `*` token.
fn is_mul_op_star(t: &Token) -> (r: bool)
    ensures
        r == (t.model() is Astrisk),
{
    match t {
        Token::Astrisk => true,
        _ => false,
    }
}

/// True of exactly the `+` token.
fn is_add_op_plus(t: &Token) -> (r: bool)
    ensures
        r == (t.model() is Plus),
{
    match t {
        Token::Plus => true,
        _ => false,
    }
}

/// The additive level, the loosest of the grammar: a multiplicative
/// expression, then every `+` or `-` bound to the left.
fn p_add(toks: &Vec<TokenTriple>, i: usize) -> (r: Result<(Expr, usize), ExprErrorS>)
    requires
        i <= toks@.len(),
    ensures
        match r {
            Ok(res) => {
                &&& i < res.1 <= toks@.len()
                &&& sp_add(tok_models(toks@), i as nat) == (ParseStep::Done {
                    expr: res.0.model(),
                    next: res.1 as nat,
                })
            },
            Err(e) => sp_add(tok_models(toks@), i as nat) == (ParseStep::Fail {
                err: crate::errors::error_model(e),
            }),
        },
    decreases toks@.len() - i, 4nat,
{
    let ghost m = tok_models(toks@);
    let n = toks.len();
    let mut acc: Expr;
    let mut j: usize;
    match p_mul(toks, i) {
        Err(e) => {
            return Err(e);
        },
        Ok((expr, next)) => {
            acc = expr;
            j = next;
        },
    }
    while j < n && is_add_op(&toks[j].1)
        invariant
            i < j <= n,
            n == toks@.len(),
            m == tok_models(toks@),
            sp_add(m, i as nat) == sp_add_tail(m, i as nat, j as nat, acc.model()),
        decreases n - j,
    {
        let op = if is_add_op_plus(&toks[j].1) {
            OpInfix::Add
        } else {
            OpInfix::Subtract
        };
        match p_mul(toks, j + 1) {
            Err(e) => {
                return Err(e);
            },
            Ok((rhs, next2)) => {
                let node = Expr::new(
                    ExprKind::InfixOp(Box::new(ExprInfixOp { lt: Box::new(acc), op, rt: Box::new(rhs) })),
                    Span::new(toks[i].0, toks[next2 - 1].2),
                );
                acc = node;
                j = next2;
            },
        }
    }
    Ok((acc, j))
}

/// Parse source code in to an [`Expr`]. On failure the error list holds
/// every lexical error in scan order, then the syntax error, if any; it is
/// never empty.
pub fn parse(source: &str) -> (r: ExprResult<Expr>)
    ensures
        ({
            let sp = spec_parse(source.spec_bytes());
            match r {
                Ok(expr) => sp is Ok && expr.model() == sp->Ok_0,
                Err(es) => sp is Err && err_models(es@) == sp->Err_0 && es@.len() > 0,
            }
        }),
{
    let mut items = lex(source);
    let ghost all_items = lex_models(items@);
    let mut errs: Vec<ExprErrorS> = Vec::new();
    let mut toks: Vec<TokenTriple> = Vec::new();
    let ghost mut done: Seq<LexItemModel> = Seq::empty();
    proof {
        assert(done + lex_models(items@) =~= all_items);
        assert(tokens_of(done) =~= tok_models(toks@));
        assert(lex_errors_of(done) =~= err_models(errs@));
    }
    while items.len() > 0
        invariant
            done + lex_models(items@) == all_items,
            tokens_of(done) == tok_models(toks@),
            lex_errors_of(done) == err_models(errs@),
        decreases items@.len(),
    {
        let ghost old_items = items@;
        let ghost old_done = done;
        let item = items.remove(0);
        proof {
            assert(lex_models(old_items)[0] == crate::lexer::lex_item_model(item));
            assert(lex_models(items@) =~= lex_models(old_items).skip(1));
            done = old_done.push(crate::lexer::lex_item_model(item));
            assert(done.drop_last() =~= old_done);
            assert(done + lex_models(items@) =~= all_items);
        }
        match item {
            Ok(t) => {
                let ghost old_toks = toks@;
                toks.push(t);
                proof {
                    assert(tok_models(toks@) =~= tok_models(old_toks).push(triple_model(t)));
                    assert(tokens_of(done) == tok_models(toks@));
                    assert(lex_errors_of(done) == err_models(errs@));
                }
            },
            Err(e) => {
                let ghost old_errs = errs@;
                errs.push(e);
                proof {
                    assert(err_models(errs@) =~= err_models(old_errs).push(
                        crate::errors::error_model(e),
                    ));
                    assert(lex_errors_of(done) == err_models(errs@));
                    assert(tokens_of(done) == tok_models(toks@));
                }
            },
        }
    }
    proof {
        assert(done =~= all_items);
    }
    let mut tree = Expr::error();
    match p_add(&toks, 0) {
        Ok(res) => {
            let (expr, next) = res;
            if next < toks.len() {
                let tn = token_name_of(&toks[next].1);
                let ghost before = errs@;
                errs.push(
                    (
                        ExprError::SyntaxError(SyntaxError::ExtraToken { token: tn }),
                        Span::new(toks[next].0, toks[next].2),
                    ),
                );
                proof {
                    assert(err_models(errs@) =~= err_models(before).push(
                        crate::errors::error_model(errs@.last()),
                    ));
                }
            } else {
                tree = expr;
            }
        },
        Err(e) => {
            let ghost before = errs@;
            errs.push(e);
            proof {
                assert(err_models(errs@) =~= err_models(before).push(crate::errors::error_model(e)));
            }
        },
    }
    if errs.len() == 0 {
        Ok(tree)
    } else {
        Err(errs)
    }
}

} // verus!
