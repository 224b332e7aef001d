//! The lexer: source text to a finite sequence of spanned tokens.
//!
//! The scan never stops at a malformed character: it reports a lexical error
//! for that character's bytes and resumes at the next position, so one call
//! can surface several independent lexical errors.

use crate::errors::{ErrorModel, ExprError, ExprErrorS, LexicalError};
use crate::span::Span;
use vstd::prelude::*;
use vstd::string::StringSliceAdditionalSpecFns;

verus! {

/// One lexical unit. A number carries its matched source text: ASCII digits
/// with an optional `.`-separated fractional part, per the token pattern
/// `[0-9]+(\.[0-9]+)?`.
#[derive(Debug, Clone, PartialEq)]
pub enum Token {
    LParan,
    RParan,
    Plus,
    Minus,
    Slash,
    Astrisk,
    Number(Vec<u8>),
}

/// Mathematical image of a token, with the number text as a byte sequence.
pub enum TokenModel {
    LParan,
    RParan,
    Plus,
    Minus,
    Slash,
    Astrisk,
    Number(Seq<u8>),
}

impl Token {
    /// The mathematical image of this token.
    pub open spec fn model(self) -> TokenModel {
        match self {
            Token::LParan => TokenModel::LParan,
            Token::RParan => TokenModel::RParan,
            Token::Plus => TokenModel::Plus,
            Token::Minus => TokenModel::Minus,
            Token::Slash => TokenModel::Slash,
            Token::Astrisk => TokenModel::Astrisk,
            Token::Number(text) => TokenModel::Number(text@),
        }
    }
}

/// Mathematical image of one item of the scan: a spanned token, or a spanned
/// lexical error.
pub enum LexItemModel {
    Token { start: int, token: TokenModel, end: int },
    Error { err: ErrorModel },
}

/// The mathematical image of one scan item.
pub open spec fn lex_item_model(item: Result<(usize, Token, usize), ExprErrorS>) -> LexItemModel {
    match item {
        Ok((start, token, end)) => LexItemModel::Token {
            start: start as int,
            token: token.model(),
            end: end as int,
        },
        Err(e) => LexItemModel::Error { err: crate::errors::error_model(e) },
    }
}

/// The mathematical image of a whole scan result.
pub open spec fn lex_models(items: Seq<Result<(usize, Token, usize), ExprErrorS>>) -> Seq<
    LexItemModel,
> {
    items.map_values(|item| lex_item_model(item))
}

/// The characters skipped silently between tokens: space, tab, newline and
/// form feed.
pub open spec fn is_whitespace_byte(b: u8) -> bool {
    b == 32 || b == 9 || b == 10 || b == 12
}

/// An ASCII decimal digit.
pub open spec fn is_digit_byte(b: u8) -> bool {
    48 <= b && b <= 57
}

/// The first position at or after `p` holding a byte that is not whitespace,
/// or the end of the input.
pub open spec fn skip_whitespace(s: Seq<u8>, p: nat) -> nat
    decreases s.len() - p,
    when p <= s.len()
{
    if p == s.len() {
        p
    } else if is_whitespace_byte(s[p as int]) {
        skip_whitespace(s, p + 1)
    } else {
        p
    }
}

/// The first position at or after `p` holding a byte that is not a digit, or
/// the end of the input.
pub open spec fn digits_end(s: Seq<u8>, p: nat) -> nat
    decreases s.len() - p,
    when p <= s.len()
{
    if p == s.len() {
        p
    } else if is_digit_byte(s[p as int]) {
        digits_end(s, p + 1)
    } else {
        p
    }
}

/// The end of the number literal starting at `p`: its digits, then a
/// fractional part only where a `.` is followed by at least one digit.
pub open spec fn number_end(s: Seq<u8>, p: nat) -> nat {
    let d = digits_end(s, p);
    if d < s.len() && s[d as int] == 46 && d + 1 < s.len() && is_digit_byte(s[d as int + 1]) {
        digits_end(s, d + 1)
    } else {
        d
    }
}

/// How many bytes the UTF-8 character starting with `b` occupies; bytes that
/// start no character count as one, so the scan always moves forward.
pub open spec fn char_width(b: u8) -> nat {
    if b < 0xC0 {
        1
    } else if b < 0xE0 {
        2
    } else if b < 0xF0 {
        3
    } else {
        4
    }
}

pub proof fn lemma_skip_whitespace_bounds(s: Seq<u8>, p: nat)
    requires
        p <= s.len(),
    ensures
        p <= skip_whitespace(s, p) <= s.len(),
    decreases s.len() - p,
{
    if p < s.len() && is_whitespace_byte(s[p as int]) {
        lemma_skip_whitespace_bounds(s, p + 1);
    }
}

pub proof fn lemma_digits_end_bounds(s: Seq<u8>, p: nat)
    requires
        p <= s.len(),
    ensures
        p <= digits_end(s, p) <= s.len(),
    decreases s.len() - p,
{
    if p < s.len() && is_digit_byte(s[p as int]) {
        lemma_digits_end_bounds(s, p + 1);
    }
}

pub proof fn lemma_number_end_bounds(s: Seq<u8>, p: nat)
    requires
        p < s.len(),
        is_digit_byte(s[p as int]),
    ensures
        p < number_end(s, p) <= s.len(),
{
    lemma_digits_end_bounds(s, p);
    lemma_digits_end_bounds(s, p + 1);
    let d = digits_end(s, p);
    if d < s.len() && s[d as int] == 46 && d + 1 < s.len() && is_digit_byte(s[d as int + 1]) {
        lemma_digits_end_bounds(s, d + 1);
    }
}

/// One step of the scan at or after `p`: the next item and the position to
/// resume at, or `None` at the end of the input.
pub open spec fn spec_lex_step(s: Seq<u8>, p: nat) -> Option<(LexItemModel, nat)> {
    let q = skip_whitespace(s, p);
    if q >= s.len() {
        None
    } else {
        let b = s[q as int];
        if b == 40 {
            Some((single_token_item(TokenModel::LParan, q), (q + 1) as nat))
        } else if b == 41 {
            Some((single_token_item(TokenModel::RParan, q), (q + 1) as nat))
        } else if b == 43 {
            Some((single_token_item(TokenModel::Plus, q), (q + 1) as nat))
        } else if b == 45 {
            Some((single_token_item(TokenModel::Minus, q), (q + 1) as nat))
        } else if b == 47 {
            Some((single_token_item(TokenModel::Slash, q), (q + 1) as nat))
        } else if b == 42 {
            Some((single_token_item(TokenModel::Astrisk, q), (q + 1) as nat))
        } else if is_digit_byte(b) {
            let e = number_end(s, q);
            Some(
                (
                    LexItemModel::Token {
                        start: q as int,
                        token: TokenModel::Number(s.subrange(q as int, e as int)),
                        end: e as int,
                    },
                    e,
                ),
            )
        } else {
            let e = if q + char_width(b) <= s.len() {
                (q + char_width(b)) as nat
            } else {
                s.len()
            };
            Some(
                (LexItemModel::Error { err: ErrorModel::Lexical { start: q as int, end: e as int } }, e),
            )
        }
    }
}

/// A one-byte token at position `q`.
pub open spec fn single_token_item(t: TokenModel, q: nat) -> LexItemModel {
    LexItemModel::Token { start: q as int, token: t, end: q as int + 1 }
}

/// The whole scan from position `p` on.
pub open spec fn spec_lex_from(s: Seq<u8>, p: nat) -> Seq<LexItemModel>
    decreases s.len() - p,
    when p <= s.len()
    via spec_lex_from_decreases
{
    match spec_lex_step(s, p) {
        None => Seq::empty(),
        Some((item, p2)) => seq![item] + spec_lex_from(s, p2),
    }
}

#[via_fn]
proof fn spec_lex_from_decreases(s: Seq<u8>, p: nat) {
    lemma_skip_whitespace_bounds(s, p);
    let q = skip_whitespace(s, p);
    if q < s.len() && is_digit_byte(s[q as int]) {
        lemma_number_end_bounds(s, q);
    }
}

/// What the scan of a whole source yields: the specification `lex` is held
/// to.
pub open spec fn spec_lex(s: Seq<u8>) -> Seq<LexItemModel> {
    spec_lex_from(s, 0)
}

impl LexItemModel {
    /// Where an item's source region begins.
    pub open spec fn item_start(self) -> int {
        match self {
            LexItemModel::Token { start, .. } => start,
            LexItemModel::Error { err } => err.start(),
        }
    }

    /// Where an item's source region ends; the scan resumes there.
    pub open spec fn item_end(self) -> int {
        match self {
            LexItemModel::Token { end, .. } => end,
            LexItemModel::Error { err } => err.end(),
        }
    }
}

/// The exact source text of a token.
pub open spec fn token_text(t: TokenModel) -> Seq<u8> {
    match t {
        TokenModel::LParan => seq![40u8],
        TokenModel::RParan => seq![41u8],
        TokenModel::Plus => seq![43u8],
        TokenModel::Minus => seq![45u8],
        TokenModel::Slash => seq![47u8],
        TokenModel::Astrisk => seq![42u8],
        TokenModel::Number(text) => text,
    }
}

/// One scan item lies inside the source, covers at least one byte, and — for
/// a token — the source bytes at its span are exactly the token's text.
pub open spec fn span_accurate(s: Seq<u8>, item: LexItemModel) -> bool {
    match item {
        LexItemModel::Token { start, token, end } => 0 <= start < end <= s.len()
            && s.subrange(start, end) == token_text(token),
        LexItemModel::Error { err } => 0 <= err.start() < err.end() <= s.len(),
    }
}

/// Every byte the whitespace skip passed over is whitespace.
pub proof fn lemma_skip_whitespace_region(s: Seq<u8>, p: nat)
    requires
        p <= s.len(),
    ensures
        forall|i: int| p <= i < skip_whitespace(s, p) ==> is_whitespace_byte(#[trigger] s[i]),
    decreases s.len() - p,
{
    if p < s.len() && is_whitespace_byte(s[p as int]) {
        lemma_skip_whitespace_region(s, p + 1);
        lemma_skip_whitespace_bounds(s, p + 1);
    }
}

proof fn lemma_skip_whitespace_all(s: Seq<u8>, p: nat)
    requires
        p <= s.len(),
        forall|i: int| p <= i < s.len() ==> is_whitespace_byte(#[trigger] s[i]),
    ensures
        skip_whitespace(s, p) == s.len(),
    decreases s.len() - p,
{
    if p < s.len() {
        lemma_skip_whitespace_all(s, p + 1);
    }
}

/// Law: a scan of whitespace-only input yields nothing at all — no tokens
/// and no errors. That every scan is finite is inherent: `spec_lex` is a
/// sequence and `lex` returns the whole of it.
pub proof fn lemma_lex_whitespace_only(s: Seq<u8>)
    requires
        forall|i: int| 0 <= i < s.len() ==> is_whitespace_byte(#[trigger] s[i]),
    ensures
        spec_lex(s).len() == 0,
{
    lemma_skip_whitespace_all(s, 0);
}

proof fn lemma_lex_from_span_accuracy(s: Seq<u8>, p: nat)
    requires
        p <= s.len(),
    ensures
        forall|k: int|
            0 <= k < spec_lex_from(s, p).len() ==> span_accurate(
                s,
                #[trigger] spec_lex_from(s, p)[k],
            ),
    decreases s.len() - p,
{
    lemma_skip_whitespace_bounds(s, p);
    let q = skip_whitespace(s, p);
    if q < s.len() {
        let b = s[q as int];
        if is_digit_byte(b) && !(b == 40 || b == 41 || b == 43 || b == 45 || b == 47 || b == 42) {
            lemma_number_end_bounds(s, q);
        }
        let step = spec_lex_step(s, p);
        let item = step->Some_0.0;
        let p2 = step->Some_0.1;
        lemma_step_skip(s, p, p2);
        assert(span_accurate(s, item)) by {
            if b == 40 || b == 41 || b == 43 || b == 45 || b == 47 || b == 42 {
                assert(s.subrange(q as int, q as int + 1) =~= seq![b]);
            }
        }
        lemma_lex_from_span_accuracy(s, p2);
        assert forall|k: int| 0 <= k < spec_lex_from(s, p).len() implies span_accurate(
            s,
            #[trigger] spec_lex_from(s, p)[k],
        ) by {
            if k > 0 {
                assert(spec_lex_from(s, p)[k] == spec_lex_from(s, p2)[k - 1]);
            }
        }
    }
}

/// Law: span accuracy — every item of a scan lies inside the source and, for
/// a token, the source bytes at its span reproduce the token's literal text
/// exactly.
pub proof fn lemma_lex_span_accuracy(s: Seq<u8>)
    ensures
        forall|k: int|
            0 <= k < spec_lex(s).len() ==> span_accurate(s, #[trigger] spec_lex(s)[k]),
{
    lemma_lex_from_span_accuracy(s, 0);
}

/// No scan item begins before the position the scan started from.
pub proof fn lemma_lex_from_starts(s: Seq<u8>, p: nat)
    requires
        p <= s.len(),
    ensures
        forall|k: int|
            0 <= k < spec_lex_from(s, p).len() ==> (#[trigger] spec_lex_from(s, p)[k]).item_start()
                >= p,
    decreases s.len() - p,
{
    lemma_skip_whitespace_bounds(s, p);
    if spec_lex_step(s, p) is Some {
        let q = skip_whitespace(s, p);
        if q < s.len() && is_digit_byte(s[q as int]) {
            lemma_number_end_bounds(s, q);
        }
        let p2 = spec_lex_step(s, p)->Some_0.1;
        lemma_step_skip(s, p, p2);
        lemma_lex_from_starts(s, p2);
        assert forall|k: int| 0 <= k < spec_lex_from(s, p).len() implies (#[trigger] spec_lex_from(
            s,
            p,
        )[k]).item_start() >= p by {
            if k > 0 {
                assert(spec_lex_from(s, p)[k] == spec_lex_from(s, p2)[k - 1]);
            }
        }
    }
}

/// The scan's items come in source order: each one ends no later than the
/// next begins.
pub proof fn lemma_lex_from_ordered(s: Seq<u8>, p: nat)
    requires
        p <= s.len(),
    ensures
        forall|k: int|
            0 <= k < spec_lex_from(s, p).len() - 1 ==> (#[trigger] spec_lex_from(s, p)[k]).item_end()
                <= spec_lex_from(s, p)[k + 1].item_start(),
    decreases s.len() - p,
{
    lemma_skip_whitespace_bounds(s, p);
    if spec_lex_step(s, p) is Some {
        let q = skip_whitespace(s, p);
        if q < s.len() && is_digit_byte(s[q as int]) {
            lemma_number_end_bounds(s, q);
        }
        let item = spec_lex_step(s, p)->Some_0.0;
        let p2 = spec_lex_step(s, p)->Some_0.1;
        lemma_step_skip(s, p, p2);
        assert(item.item_end() == p2);
        lemma_lex_from_starts(s, p2);
        lemma_lex_from_ordered(s, p2);
        assert forall|k: int| 0 <= k < spec_lex_from(s, p).len() - 1 implies (
        #[trigger] spec_lex_from(s, p)[k]).item_end() <= spec_lex_from(s, p)[k + 1].item_start() by {
            assert(spec_lex_from(s, p)[k + 1] == spec_lex_from(s, p2)[k]);
            if k > 0 {
                assert(spec_lex_from(s, p)[k] == spec_lex_from(s, p2)[k - 1]);
            }
        }
    }
}

/// Where a scan yields nothing, everything at or after its start is
/// whitespace.
pub proof fn lemma_lex_from_empty_trailing(s: Seq<u8>, p: nat)
    requires
        p <= s.len(),
        spec_lex_from(s, p).len() == 0,
    ensures
        forall|i: int| p <= i < s.len() ==> is_whitespace_byte(#[trigger] s[i]),
{
    lemma_skip_whitespace_bounds(s, p);
    lemma_skip_whitespace_region(s, p);
    if spec_lex_step(s, p) is Some {
        let p2 = spec_lex_step(s, p)->Some_0.1;
        lemma_step_skip(s, p, p2);
    }
}

/// Everything after the last item of a non-empty scan is whitespace, and
/// that item ends inside the source.
pub proof fn lemma_lex_from_last_end(s: Seq<u8>, p: nat)
    requires
        p <= s.len(),
        spec_lex_from(s, p).len() > 0,
    ensures
        spec_lex_from(s, p).last().item_end() <= s.len(),
        forall|i: int|
            spec_lex_from(s, p).last().item_end() <= i < s.len() ==> is_whitespace_byte(
                #[trigger] s[i],
            ),
    decreases s.len() - p,
{
    lemma_skip_whitespace_bounds(s, p);
    let q = skip_whitespace(s, p);
    if q < s.len() && is_digit_byte(s[q as int]) {
        lemma_number_end_bounds(s, q);
    }
    let step = spec_lex_step(s, p);
    let item = step->Some_0.0;
    let p2 = step->Some_0.1;
    lemma_step_skip(s, p, p2);
    assert(item.item_end() == p2);
    let rest = spec_lex_from(s, p2);
    if rest.len() == 0 {
        assert(spec_lex_from(s, p).last() == item);
        lemma_lex_from_empty_trailing(s, p2);
    } else {
        assert(spec_lex_from(s, p).last() == rest.last());
        lemma_lex_from_last_end(s, p2);
    }
}

/// Converts source text in to a sequence of [`Token`], one item at a time.
/// The one-slot `pending` buffer lets a consumer push a token back for
/// rescanning.
#[derive(Debug)]
pub struct Lexer<'a> {
    pub inner: &'a [u8],
    pub pos: usize,
    pub pending: Option<(usize, Token, usize)>,
}

impl<'a> Lexer<'a> {
    /// The position never leaves the source.
    pub open spec fn wf(self) -> bool {
        self.pos <= self.inner@.len()
    }

    /// The items the scan has still to produce: the pending slot, then the
    /// scan of the rest of the source.
    pub open spec fn remaining(self) -> Seq<LexItemModel> {
        let rest = spec_lex_from(self.inner@, self.pos as nat);
        match self.pending {
            Some(item) => seq![lex_item_model(Ok(item))] + rest,
            None => rest,
        }
    }

    pub fn new(source: &'a str) -> (l: Lexer<'a>)
        ensures
            l.wf(),
            l.inner@ == source.spec_bytes(),
            l.remaining() == spec_lex(source.spec_bytes()),
    {
        Lexer { inner: source.as_bytes(), pos: 0, pending: None }
    }

    /// The next item of the scan, or `None` once the source is exhausted.
    pub fn next(&mut self) -> (r: Option<Result<(usize, Token, usize), ExprErrorS>>)
        requires
            old(self).wf(),
        ensures
            final(self).wf(),
            final(self).inner@ == old(self).inner@,
            match r {
                None => old(self).remaining().len() == 0 && final(self).remaining().len() == 0,
                Some(item) => {
                    &&& old(self).remaining().len() > 0
                    &&& lex_item_model(item) == old(self).remaining()[0]
                    &&& final(self).remaining() == old(self).remaining().skip(1)
                },
            },
    {
        let pending = self.pending.take();
        if let Some(token) = pending {
            proof {
                assert(old(self).remaining().skip(1) =~= self.remaining());
            }
            return Some(Ok(token));
        }
        let s = self.inner;
        let n = s.len();
        let ghost sv = s@;
        // skip the whitespace before the next token
        let mut q = self.pos;
        while q < n && (s[q] == 32 || s[q] == 9 || s[q] == 10 || s[q] == 12)
            invariant
                self.pos <= q <= n,
                n == sv.len(),
                s@ == sv,
                skip_whitespace(sv, self.pos as nat) == skip_whitespace(sv, q as nat),
            decreases n - q,
        {
            q = q + 1;
        }
        proof {
            assert(skip_whitespace(sv, q as nat) == q);
        }
        if q >= n {
            self.pos = q;
            return None;
        }
        let b = s[q];
        if b == 40 {
            self.lex_single(q, Token::LParan)
        } else if b == 41 {
            self.lex_single(q, Token::RParan)
        } else if b == 43 {
            self.lex_single(q, Token::Plus)
        } else if b == 45 {
            self.lex_single(q, Token::Minus)
        } else if b == 47 {
            self.lex_single(q, Token::Slash)
        } else if b == 42 {
            self.lex_single(q, Token::Astrisk)
        } else if 48 <= b && b <= 57 {
            // a number: digits, then a fraction only where `.` is followed
            // by a digit
            let mut e = q;
            while e < n && 48 <= s[e] && s[e] <= 57
                invariant
                    q <= e <= n,
                    n == sv.len(),
                    s@ == sv,
                    digits_end(sv, q as nat) == digits_end(sv, e as nat),
                decreases n - e,
            {
                e = e + 1;
            }
            proof {
                assert(digits_end(sv, e as nat) == e);
            }
            let mut end = e;
            if e < n && s[e] == 46 && e + 1 < n && 48 <= s[e + 1] && s[e + 1] <= 57 {
                let mut f = e + 1;
                while f < n && 48 <= s[f] && s[f] <= 57
                    invariant
                        e + 1 <= f <= n,
                        n == sv.len(),
                        s@ == sv,
                        digits_end(sv, (e + 1) as nat) == digits_end(sv, f as nat),
                    decreases n - f,
                {
                    f = f + 1;
                }
                proof {
                    assert(digits_end(sv, f as nat) == f);
                }
                end = f;
            }
            proof {
                assert(end == number_end(sv, q as nat));
            }
            let sub = vstd::slice::slice_subrange(s, q, end);
            let text = vstd::slice::slice_to_vec(sub);
            self.pos = end;
            proof {
                lemma_step_skip(sv, old(self).pos as nat, end as nat);
            }
            Some(Ok((q, Token::Number(text), end)))
        } else {
            // no token begins here: report the character's bytes and resume
            // after them
            let w: usize = if b < 0xC0 {
                1
            } else if b < 0xE0 {
                2
            } else if b < 0xF0 {
                3
            } else {
                4
            };
            let end = if n - q < w {
                n
            } else {
                q + w
            };
            self.pos = end;
            proof {
                lemma_step_skip(sv, old(self).pos as nat, end as nat);
            }
            Some(
                Err(
                    (
                        ExprError::LexicalError(LexicalError::UnrecognizedCharacterSequence),
                        Span { start: q, end },
                    ),
                ),
            )
        }
    }

    /// Emit the one-byte token that starts at `q`.
    fn lex_single(&mut self, q: usize, token: Token) -> (r: Option<
        Result<(usize, Token, usize), ExprErrorS>,
    >)
        requires
            old(self).wf(),
            old(self).pending.is_none(),
            old(self).inner@.len() <= usize::MAX,
            old(self).pos <= q < old(self).inner@.len(),
            skip_whitespace(old(self).inner@, old(self).pos as nat) == q,
            match token.model() {
                TokenModel::LParan => old(self).inner@[q as int] == 40,
                TokenModel::RParan => old(self).inner@[q as int] == 41,
                TokenModel::Plus => old(self).inner@[q as int] == 43,
                TokenModel::Minus => old(self).inner@[q as int] == 45,
                TokenModel::Slash => old(self).inner@[q as int] == 47,
                TokenModel::Astrisk => old(self).inner@[q as int] == 42,
                TokenModel::Number(_) => false,
            },
        ensures
            final(self).wf(),
            final(self).inner@ == old(self).inner@,
            old(self).remaining().len() > 0,
            match r {
                Some(item) => {
                    &&& lex_item_model(item) == old(self).remaining()[0]
                    &&& final(self).remaining() == old(self).remaining().skip(1)
                },
                None => false,
            },
    {
        self.pos = q + 1;
        proof {
            lemma_step_skip(self.inner@, old(self).pos as nat, (q + 1) as nat);
        }
        Some(Ok((q, token, q + 1)))
    }
}

/// After one step of the scan, the remaining sequence is the tail: unfolds
/// `spec_lex_from` once at `p` and aligns the tail with position `p2`.
pub proof fn lemma_step_skip(s: Seq<u8>, p: nat, p2: nat)
    requires
        p <= s.len(),
        spec_lex_step(s, p) is Some,
        p2 == spec_lex_step(s, p)->Some_0.1,
    ensures
        spec_lex_from(s, p).len() > 0,
        spec_lex_from(s, p)[0] == spec_lex_step(s, p)->Some_0.0,
        spec_lex_from(s, p).skip(1) == spec_lex_from(s, p2),
{
    lemma_skip_whitespace_bounds(s, p);
    let q = skip_whitespace(s, p);
    if q < s.len() && is_digit_byte(s[q as int]) {
        lemma_number_end_bounds(s, q);
    }
    let item = spec_lex_step(s, p)->Some_0.0;
    assert(spec_lex_from(s, p) == seq![item] + spec_lex_from(s, p2));
    assert((seq![item] + spec_lex_from(s, p2)).skip(1) =~= spec_lex_from(s, p2));
}

/// Scan a whole source string in to a list of spanned [`Token`] items; every
/// malformed character becomes an `Err` item in place.
pub fn lex(source: &str) -> (tokens: Vec<Result<(usize, Token, usize), ExprErrorS>>)
    ensures
        lex_models(tokens@) == spec_lex(source.spec_bytes()),
{
    let mut lexer = Lexer::new(source);
    let mut tokens: Vec<Result<(usize, Token, usize), ExprErrorS>> = Vec::new();
    loop
        invariant
            lexer.wf(),
            lexer.inner@ == source.spec_bytes(),
            lex_models(tokens@) + lexer.remaining() == spec_lex(source.spec_bytes()),
        ensures
            lex_models(tokens@) == spec_lex(source.spec_bytes()),
        decreases lexer.remaining().len(),
    {
        let ghost before = lex_models(tokens@);
        let ghost rem = lexer.remaining();
        match lexer.next() {
            Some(item) => {
                let ghost m = lex_item_model(item);
                tokens.push(item);
                proof {
                    assert(lex_models(tokens@) =~= before + seq![m]);
                    assert(before + seq![rem[0]] + rem.skip(1) =~= before + rem);
                    assert(lex_models(tokens@) + lexer.remaining() =~= spec_lex(
                        source.spec_bytes(),
                    ));
                }
            },
            None => {
                proof {
                    assert(before + lexer.remaining() =~= before);
                }
                break ;
            },
        }
    }
    tokens
}

} // verus!
