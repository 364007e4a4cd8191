use vstd::prelude::*;

pub mod float_text;
pub mod models;

use crate::errors::{ErrorView, InterpreterError};
use crate::scanner::models::{
    keyword_kind, keyword_of, plain_token, PosView, ScannerPosition, Token, TokenInfo, TokenInfoView,
    TokenKind, TokenView,
};
use crate::scanner::float_text::{
    capital, copy_chars, decimal_text, float_text, is_float_text, is_sign, spells,
};
use crate::text::{chars_to_string, str_to_chars};

verus! {

// ---------------------------------------------------------------------------
// The lexical grammar, as spec functions over the characters of the source.
// ---------------------------------------------------------------------------

/// The character at `i`, or `'\0'` past the end.
pub open spec fn spec_peek(s: Seq<char>, i: int) -> char {
    if 0 <= i < s.len() {
        s[i]
    } else {
        '\0'
    }
}

pub open spec fn is_digit(c: char) -> bool {
    '0' <= c <= '9'
}

pub open spec fn is_alpha(c: char) -> bool {
    ('a' <= c <= 'z') || ('A' <= c <= 'Z') || c == '_'
}

pub open spec fn is_alnum(c: char) -> bool {
    is_alpha(c) || is_digit(c)
}

/// The number of line breaks in `s`.
pub open spec fn newlines(s: Seq<char>) -> nat
    decreases s.len(),
{
    if s.len() == 0 {
        0
    } else {
        newlines(s.drop_last()) + if s.last() == '\n' {
            1nat
        } else {
            0nat
        }
    }
}

/// The line that position `i` of `s` is on.
pub open spec fn line_at(s: Seq<char>, i: int) -> int {
    1 + newlines(s.take(i)) as int
}

/// The classes of characters that make up the runs the scanner reads.
pub enum CharClass {
    /// Anything but a line break or NUL: the text of a `//` comment.
    CommentText,
    /// Anything but `"` or NUL: the text of a string literal.
    StringText,
    Digit,
    /// Letters, digits and `_`.
    WordChar,
}

pub open spec fn in_class(k: CharClass, c: char) -> bool {
    match k {
        CharClass::CommentText => c != '\n' && c != '\0',
        CharClass::StringText => c != '"' && c != '\0',
        CharClass::Digit => is_digit(c),
        CharClass::WordChar => is_alnum(c),
    }
}

/// Where a run of characters of class `k` that starts at `i` ends.
pub open spec fn run_end(s: Seq<char>, i: int, k: CharClass) -> int
    decreases s.len() - i,
{
    if 0 <= i < s.len() && in_class(k, s[i]) {
        run_end(s, i + 1, k)
    } else {
        i
    }
}

/// Where a `//` comment whose text starts at `i` ends: at the line break,
/// at a NUL character, or at the end of the source.
pub open spec fn comment_end(s: Seq<char>, i: int) -> int {
    run_end(s, i, CharClass::CommentText)
}

/// Where a run of digits starting at `i` ends.
pub open spec fn digits_end(s: Seq<char>, i: int) -> int {
    run_end(s, i, CharClass::Digit)
}

/// Where a run of letters, digits and underscores starting at `i` ends.
pub open spec fn word_end(s: Seq<char>, i: int) -> int {
    run_end(s, i, CharClass::WordChar)
}

/// Where a string literal whose text starts at `i` stops: at its closing
/// quote, or at the end of the source or a NUL character, where it is
/// unterminated.
pub open spec fn string_stop(s: Seq<char>, i: int) -> int {
    run_end(s, i, CharClass::StringText)
}

/// Where a number literal whose first digit is at `start` ends: its digits,
/// then a `.` and digits if a digit follows the `.`.
pub open spec fn number_end(s: Seq<char>, start: int) -> int {
    let e = digits_end(s, start + 1);
    if spec_peek(s, e) == '.' && is_digit(spec_peek(s, e + 1)) {
        digits_end(s, e + 1)
    } else {
        e
    }
}

/// The token of kind `k` on `line`.
pub open spec fn plain_info(k: TokenKind, line: u32) -> TokenInfoView {
    TokenInfoView { token: plain_token(k), line }
}

/// The kind of the one-character tokens that never take a second character.
pub open spec fn single_kind(c: char) -> Option<TokenKind> {
    if c == '(' { Some(TokenKind::LeftParen) }
    else if c == ')' { Some(TokenKind::RightParen) }
    else if c == '{' { Some(TokenKind::LeftBrace) }
    else if c == '}' { Some(TokenKind::RightBrace) }
    else if c == ',' { Some(TokenKind::Comma) }
    else if c == '.' { Some(TokenKind::Dot) }
    else if c == '-' { Some(TokenKind::Minus) }
    else if c == '+' { Some(TokenKind::Plus) }
    else if c == ';' { Some(TokenKind::Semicolon) }
    else if c == '*' { Some(TokenKind::Star) }
    else { None }
}

/// For `!`, `=`, `<`, `>`: the kind alone and the kind followed by `=`.
pub open spec fn pair_kinds(c: char) -> Option<(TokenKind, TokenKind)> {
    if c == '!' { Some((TokenKind::Bang, TokenKind::BangEqual)) }
    else if c == '=' { Some((TokenKind::Equal, TokenKind::EqualEqual)) }
    else if c == '<' { Some((TokenKind::Less, TokenKind::LessEqual)) }
    else if c == '>' { Some((TokenKind::Greater, TokenKind::GreaterEqual)) }
    else { None }
}

/// `p` moved to index `i` of the source.
pub open spec fn at(p: PosView, i: int) -> PosView {
    PosView { current: i, ..p }
}

/// The message for a number literal whose text, read from the lexeme's
/// start, is no floating-point number.
pub open spec fn invalid_number_message() -> Seq<char> {
    "invalid float literal"@
}

/// A literal's text is cut from the source from `p.start` on, for a string
/// without its opening quote; the cut does not begin past the literal's end.
/// (Only a string that is closed is cut.)
pub open spec fn lexeme_fits(s: Seq<char>, p: PosView) -> bool {
    let c = s[p.current];
    if c == '"' {
        let stop = string_stop(s, p.current + 1);
        stop < s.len() && s[stop] == '"' ==> p.start + 1 <= stop
    } else if is_digit(c) {
        p.start <= number_end(s, p.current)
    } else if is_alpha(c) {
        p.start <= word_end(s, p.current + 1)
    } else {
        true
    }
}

/// The message for a character that starts no token.
pub open spec fn unexpected_message(c: char) -> Seq<char> {
    "Unexpected character."@
}

/// One step of the scanner at `p` (with `p.current` inside the source): the
/// position after the lexeme that starts there and the token it makes, if any.
pub open spec fn spec_scan_token(s: Seq<char>, p: PosView) -> Result<
    (PosView, Option<TokenInfoView>),
    ErrorView,
> {
    let c = s[p.current];
    let i = p.current + 1;
    let p1 = at(p, i);
    if single_kind(c) is Some {
        Ok((p1, Some(plain_info(single_kind(c).unwrap(), p.line as u32))))
    } else if pair_kinds(c) is Some {
        if spec_peek(s, i) == '=' {
            Ok((at(p, i + 1), Some(plain_info(pair_kinds(c).unwrap().1, p.line as u32))))
        } else {
            Ok((p1, Some(plain_info(pair_kinds(c).unwrap().0, p.line as u32))))
        }
    } else if c == '/' {
        if spec_peek(s, i) == '/' {
            Ok((at(p, comment_end(s, i + 1)), None))
        } else {
            Ok((p1, Some(plain_info(TokenKind::Slash, p.line as u32))))
        }
    } else if c == ' ' || c == '\r' || c == '\t' {
        Ok((p1, None))
    } else if c == '\n' {
        Ok((PosView { line: p.line + 1, ..p1 }, None))
    } else if c == '"' {
        let stop = string_stop(s, i);
        let line = p.line + newlines(s.subrange(i, stop));
        if stop < s.len() && s[stop] == '"' {
            let value = s.subrange(p.start + 1, stop);
            Ok((
                PosView { current: stop + 1, line, ..p },
                Some(
                    TokenInfoView {
                        token: TokenView {
                            kind: TokenKind::StrLiteral,
                            text: seq!['"'] + value + seq!['"'],
                            value,
                        },
                        line: line as u32,
                    },
                ),
            ))
        } else {
            Err(ErrorView::Scanner { line: line as u32, message: "Unterminated string."@ })
        }
    } else if is_digit(c) {
        let e = number_end(s, p.current);
        let text = s.subrange(p.start, e);
        if float_text(text) {
            Ok((
                at(p, e),
                Some(
                    TokenInfoView {
                        token: TokenView { kind: TokenKind::NumLiteral, text, value: Seq::empty() },
                        line: p.line as u32,
                    },
                ),
            ))
        } else {
            Err(ErrorView::Scanner { line: p.line as u32, message: invalid_number_message() })
        }
    } else if is_alpha(c) {
        let e = word_end(s, i);
        let text = s.subrange(p.start, e);
        Ok((
            at(p, e),
            Some(
                TokenInfoView {
                    token: match keyword_kind(text) {
                        Some(k) => plain_token(k),
                        None => TokenView {
                            kind: TokenKind::Identifier,
                            text,
                            value: Seq::empty(),
                        },
                    },
                    line: p.line as u32,
                },
            ),
        ))
    } else {
        Err(ErrorView::Scanner { line: p.line as u32, message: unexpected_message(c) })
    }
}

/// `ts` followed by the tokens of `r`, or the error of `r`.
pub open spec fn prepend_tokens(ts: Seq<TokenInfoView>, r: Result<Seq<TokenInfoView>, ErrorView>) -> Result<
    Seq<TokenInfoView>,
    ErrorView,
> {
    match r {
        Ok(rest) => Ok(ts + rest),
        Err(e) => Err(e),
    }
}

/// The optional token as a sequence of zero or one tokens.
pub open spec fn opt_seq(t: Option<TokenInfoView>) -> Seq<TokenInfoView> {
    match t {
        Some(t) => seq![t],
        None => Seq::empty(),
    }
}

/// The tokens of `s` from position `p` on, ending with `Eof`, or the first
/// scanning error.
pub open spec fn scan_from(s: Seq<char>, p: PosView) -> Result<Seq<TokenInfoView>, ErrorView>
    decreases s.len() - p.current,
    via scan_from_decreases
{
    if p.current >= s.len() {
        Ok(seq![plain_info(TokenKind::Eof, p.line as u32)])
    } else {
        match spec_scan_token(s, p) {
            Err(e) => Err(e),
            Ok((q, t)) => prepend_tokens(opt_seq(t), scan_from(s, PosView { start: q.current, ..q })),
        }
    }
}

/// The first position of a source.
pub open spec fn first_position() -> PosView {
    PosView { start: 0, current: 0, line: 1 }
}

/// The tokens of source `s`, ending with `Eof`, or the first scanning error.
pub open spec fn spec_scan(s: Seq<char>) -> Result<Seq<TokenInfoView>, ErrorView> {
    scan_from(s, first_position())
}

// ---------------------------------------------------------------------------
// Lemmas on the grammar.
// ---------------------------------------------------------------------------

proof fn lemma_run_end(s: Seq<char>, i: int, p: CharClass)
    requires
        i <= s.len(),
    ensures
        i <= run_end(s, i, p) <= s.len(),
        0 <= run_end(s, i, p) < s.len() ==> !in_class(p, s[run_end(s, i, p)]),
        forall|j: int| i <= j < run_end(s, i, p) ==> in_class(p, #[trigger] s[j]),
    decreases s.len() - i,
{
    if 0 <= i < s.len() && in_class(p, s[i]) {
        lemma_run_end(s, i + 1, p);
    }
}

proof fn lemma_newlines_push(s: Seq<char>, i: int)
    requires
        0 <= i < s.len(),
    ensures
        newlines(s.take(i + 1)) == newlines(s.take(i)) + if s[i] == '\n' {
            1nat
        } else {
            0nat
        },
{
    assert(s.take(i + 1).drop_last() =~= s.take(i));
}

/// Every step moves forward, and not past the end of the source.
proof fn lemma_scan_token_progress(s: Seq<char>, p: PosView)
    requires
        p.current < s.len(),
    ensures
        spec_scan_token(s, p) matches Ok((q, _)) ==> p.current < q.current <= s.len(),
{
    let c = s[p.current];
    let i = p.current + 1;
    if c == '/' && spec_peek(s, i) == '/' {
        lemma_run_end(s, i + 1, CharClass::CommentText);
    } else if c == '"' {
        lemma_run_end(s, i, CharClass::StringText);
    } else if is_digit(c) {
        lemma_run_end(s, i, CharClass::Digit);
        let e = digits_end(s, i);
        if spec_peek(s, e) == '.' && is_digit(spec_peek(s, e + 1)) {
            lemma_run_end(s, e + 1, CharClass::Digit);
        }
    } else if is_alpha(c) {
        lemma_run_end(s, i, CharClass::WordChar);
    }
}

#[via_fn]
proof fn scan_from_decreases(s: Seq<char>, p: PosView) {
    if p.current < s.len() {
        lemma_scan_token_progress(s, p);
    }
}

proof fn lemma_no_newlines(s: Seq<char>, i: int, j: int)
    requires
        0 <= i <= j <= s.len(),
        forall|k: int| i <= k < j ==> s[k] != '\n',
    ensures
        newlines(s.subrange(i, j)) == 0,
    decreases j - i,
{
    if i < j {
        lemma_no_newlines(s, i, j - 1);
        assert(s.subrange(i, j).drop_last() =~= s.subrange(i, j - 1));
    }
}

/// Reading characters that are not line breaks keeps the line.
proof fn lemma_line_kept(s: Seq<char>, a: int, b: int)
    requires
        0 <= a <= b <= s.len(),
        forall|k: int| a <= k < b ==> s[k] != '\n',
    ensures
        line_at(s, b) == line_at(s, a),
{
    lemma_newlines_split(s, a, b);
    lemma_no_newlines(s, a, b);
}

/// The line of a string literal's end.
proof fn lemma_line_string(s: Seq<char>, p: PosView)
    requires
        0 <= p.current < s.len(),
        s[p.current] == '"',
        p.line == line_at(s, p.current),
    ensures
        ({
            let i = p.current + 1;
            let stop = string_stop(s, i);
            &&& i <= stop <= s.len()
            &&& stop < s.len() ==> s[stop] == '"' || s[stop] == '\0'
            &&& p.line + newlines(s.subrange(i, stop)) == line_at(s, stop)
            &&& stop < s.len() && s[stop] == '"' ==> line_at(s, stop + 1) == line_at(s, stop)
        }),
{
    let i = p.current + 1;
    let stop = string_stop(s, i);
    lemma_run_end(s, i, CharClass::StringText);
    lemma_line_kept(s, p.current, i);
    lemma_newlines_split(s, i, stop);
    if stop < s.len() && s[stop] == '"' {
        lemma_line_kept(s, stop, stop + 1);
    }
}

/// The line of a step's end: one more than the line breaks read so far.
pub proof fn lemma_scan_token_line(s: Seq<char>, p: PosView)
    requires
        0 <= p.current < s.len(),
        p.line == line_at(s, p.current),
    ensures
        spec_scan_token(s, p) matches Ok((q, _)) ==> {
            &&& p.current < q.current <= s.len()
            &&& q.line == line_at(s, q.current)
            &&& q.start == p.start
        },
        spec_scan_token(s, p) matches Err(ErrorView::Scanner { line, message: _ }) ==> line
            == line_at(s, string_stop(s, p.current + 1)) as u32 || line == p.line as u32,
{
    lemma_scan_token_progress(s, p);
    let c = s[p.current];
    let cur = p.current;
    let i = cur + 1;
    if c == '"' {
        lemma_line_string(s, p);
    } else if c == '\n' {
        lemma_newlines_push(s, cur);
    } else if let Ok((q, _)) = spec_scan_token(s, p) {
        let e = q.current;
        if c == '/' && spec_peek(s, i) == '/' {
            lemma_run_end(s, i + 1, CharClass::CommentText);
            assert forall|k: int| cur <= k < e implies s[k] != '\n' by {
                if k > i {
                    assert(in_class(CharClass::CommentText, s[k]));
                }
            }
            lemma_line_kept(s, cur, e);
        } else if is_digit(c) && single_kind(c) is None && pair_kinds(c) is None {
            lemma_run_end(s, i, CharClass::Digit);
            let e1 = digits_end(s, i);
            if spec_peek(s, e1) == '.' && is_digit(spec_peek(s, e1 + 1)) {
                lemma_run_end(s, e1 + 1, CharClass::Digit);
            }
            assert forall|k: int| cur <= k < e implies s[k] != '\n' by {
                if i <= k < e1 {
                    assert(in_class(CharClass::Digit, s[k]));
                } else if k > e1 {
                    assert(in_class(CharClass::Digit, s[k]));
                }
            }
            lemma_line_kept(s, cur, e);
        } else if is_alpha(c) && single_kind(c) is None && pair_kinds(c) is None && !is_digit(c) {
            lemma_run_end(s, i, CharClass::WordChar);
            assert forall|k: int| cur <= k < e implies s[k] != '\n' by {
                if k >= i {
                    assert(in_class(CharClass::WordChar, s[k]));
                }
            }
            lemma_line_kept(s, cur, e);
        } else {
            lemma_line_kept(s, cur, e);
        }
    }
}

/// A step moves forward within the source, keeps where its lexeme started,
/// and adds to the line count the line breaks it read.
pub proof fn lemma_scan_token_moves(s: Seq<char>, p: PosView)
    requires
        0 <= p.current < s.len(),
    ensures
        spec_scan_token(s, p) matches Ok((q, _)) ==> {
            &&& q.start == p.start
            &&& p.current < q.current <= s.len()
            &&& q.line == p.line + newlines(s.subrange(p.current, q.current))
        },
{
    lemma_scan_token_progress(s, p);
    let c = s[p.current];
    let cur = p.current;
    let i = cur + 1;
    if let Ok((q, _)) = spec_scan_token(s, p) {
        let e = q.current;
        lemma_newlines_split(s, cur, e);
        lemma_newlines_split(s, cur, i);
        lemma_newlines_push(s, cur);
        if c == '"' {
            let stop = string_stop(s, i);
            lemma_run_end(s, i, CharClass::StringText);
            lemma_newlines_split(s, i, stop);
            lemma_newlines_split(s, stop, e);
            lemma_newlines_push(s, stop);
            assert(newlines(s.subrange(cur, e)) == newlines(s.subrange(i, stop)));
        } else if c == '\n' {
        } else if c == '/' && spec_peek(s, i) == '/' {
            lemma_run_end(s, i + 1, CharClass::CommentText);
            assert forall|k: int| cur <= k < e implies s[k] != '\n' by {
                if k > i {
                    assert(in_class(CharClass::CommentText, s[k]));
                }
            }
            lemma_no_newlines(s, cur, e);
        } else if is_digit(c) && single_kind(c) is None && pair_kinds(c) is None {
            lemma_run_end(s, i, CharClass::Digit);
            let e1 = digits_end(s, i);
            if spec_peek(s, e1) == '.' && is_digit(spec_peek(s, e1 + 1)) {
                lemma_run_end(s, e1 + 1, CharClass::Digit);
            }
            assert forall|k: int| cur <= k < e implies s[k] != '\n' by {
                if i <= k < e1 {
                    assert(in_class(CharClass::Digit, s[k]));
                } else if k > e1 {
                    assert(in_class(CharClass::Digit, s[k]));
                }
            }
            lemma_no_newlines(s, cur, e);
        } else if is_alpha(c) && single_kind(c) is None && pair_kinds(c) is None && !is_digit(c) {
            lemma_run_end(s, i, CharClass::WordChar);
            assert forall|k: int| cur <= k < e implies s[k] != '\n' by {
                if k >= i {
                    assert(in_class(CharClass::WordChar, s[k]));
                }
            }
            lemma_no_newlines(s, cur, e);
        } else {
            lemma_no_newlines(s, cur, e);
        }
    }
}

/// A lexeme that starts where the scanner stands always fits.
proof fn lemma_fits_at_start(s: Seq<char>, p: PosView)
    requires
        0 <= p.start == p.current < s.len(),
    ensures
        lexeme_fits(s, p),
{
    lemma_run_end(s, p.current + 1, CharClass::StringText);
    lemma_run_end(s, p.current + 1, CharClass::Digit);
    lemma_run_end(s, p.current + 1, CharClass::WordChar);
    let e = digits_end(s, p.current + 1);
    if e < s.len() {
        lemma_run_end(s, e + 1, CharClass::Digit);
    }
}

/// A part of a range has no more line breaks than the range.
proof fn lemma_newlines_within(s: Seq<char>, c: int, a: int, b: int, d: int)
    requires
        0 <= c <= a <= b <= d <= s.len(),
    ensures
        newlines(s.subrange(a, b)) <= newlines(s.subrange(c, d)),
{
    lemma_newlines_split(s, a, b);
    lemma_newlines_split(s, c, d);
    lemma_newlines_split(s, c, a);
    lemma_newlines_split(s, b, d);
}

proof fn lemma_newlines_split(s: Seq<char>, i: int, j: int)
    requires
        0 <= i <= j <= s.len(),
    ensures
        newlines(s.take(j)) == newlines(s.take(i)) + newlines(s.subrange(i, j)),
    decreases j - i,
{
    if i == j {
        assert(s.subrange(i, j) =~= Seq::<char>::empty());
    } else {
        lemma_newlines_split(s, i, j - 1);
        lemma_newlines_push(s, j - 1);
        assert(s.subrange(i, j).drop_last() =~= s.subrange(i, j - 1));
    }
}


// ---------------------------------------------------------------------------
// The scanner.
// ---------------------------------------------------------------------------

/// A scanning step as plain values.
pub open spec fn step_view(r: Result<(ScannerPosition, Option<TokenInfo>), InterpreterError>) -> Result<
    (PosView, Option<TokenInfoView>),
    ErrorView,
> {
    match r {
        Ok((p, t)) => Ok((
            p@,
            match t {
                Some(t) => Some(t@),
                None => None,
            },
        )),
        Err(e) => Err(e@),
    }
}

/// The tokens of a scan as plain values.
pub open spec fn tokens_view(ts: Seq<TokenInfo>) -> Seq<TokenInfoView> {
    ts.map_values(|t: TokenInfo| t@)
}

/// A scan's result as plain values.
pub open spec fn scan_view(r: Result<Vec<TokenInfo>, InterpreterError>) -> Result<
    Seq<TokenInfoView>,
    ErrorView,
> {
    match r {
        Ok(ts) => Ok(tokens_view(ts@)),
        Err(e) => Err(e@),
    }
}

/// What the scanner may be given: a source whose line numbers fit in a `u32`.
pub open spec fn scannable(s: Seq<char>) -> bool {
    newlines(s) + 1 < u32::MAX
}


/// Scans `source` into tokens, ending with `Eof`; fails with the first
/// scanning error.
#[verifier::loop_isolation(false)]
pub fn scan_tokens(source: &str) -> (r: Result<Vec<TokenInfo>, InterpreterError>)
    requires
        scannable(source@),
    ensures
        scan_view(r) == spec_scan(source@),
{
    let mut tokens: Vec<TokenInfo> = Vec::new();
    let source: Vec<char> = str_to_chars(source);
    let input_len = source.len();
    let ghost s = source@;

    let mut pos = ScannerPosition { start: 0, current: 0, line: 1 };
    assert(s.take(0) =~= Seq::<char>::empty());
    assert(tokens_view(tokens@) =~= Seq::<TokenInfoView>::empty());

    while !is_at_end(pos.current, input_len)
        invariant
            s == source@,
            input_len == s.len(),
            scannable(s),
            pos.start == pos.current,
            pos.current <= s.len(),
            pos@.line == line_at(s, pos@.current),
            spec_scan(s) == prepend_tokens(tokens_view(tokens@), scan_from(s, pos@)),
        decreases s.len() - pos.current,
    {
        proof {
            lemma_scan_token_line(s, pos@);
            lemma_fits_at_start(s, pos@);
            lemma_newlines_split(s, pos.current as int, s.len() as int);
            assert(s.take(s.len() as int) =~= s);
        }
        let pos_and_token = match scan_token(&pos, source.as_slice()) {
            Ok(pt) => pt,
            Err(e) => {
                assert(scan_from(s, pos@) == Err::<Seq<TokenInfoView>, ErrorView>(e@));
                return Err(e);
            },
        };
        let ghost old_tokens = tokens_view(tokens@);
        let ghost q = pos_and_token.0@;
        let ghost t = step_view(Ok((pos_and_token.0, pos_and_token.1)));
        pos = pos_and_token.0.at_start();

        if let Some(t) = pos_and_token.1 {
            tokens.push(t);
        }
        proof {
            let rest = scan_from(s, pos@);
            assert(tokens_view(tokens@) =~= old_tokens + opt_seq(
                match pos_and_token.1 {
                    Some(t) => Some(t@),
                    None => None,
                },
            ));
            match rest {
                Ok(r) => {
                    assert(old_tokens + (opt_seq(
                        match pos_and_token.1 {
                            Some(t) => Some(t@),
                            None => None,
                        },
                    ) + r) =~= tokens_view(tokens@) + r);
                },
                Err(_) => {},
            }
        }
    }

    let ghost before = tokens_view(tokens@);
    tokens.push(TokenInfo { token: Token::Eof, line: pos.line });
    assert(tokens_view(tokens@) =~= before + seq![plain_info(TokenKind::Eof, pos@.line as u32)]);

    Ok(tokens)
}

pub fn is_at_end(current: usize, input_length: usize) -> (r: bool)
    ensures
        r == (current >= input_length),
{
    current >= input_length
}

/// Reads one character: the position after it, and the character.
pub fn advance(pos: &ScannerPosition, source: &[char]) -> (r: (ScannerPosition, char))
    requires
        pos.current < source@.len(),
    ensures
        r.0@ == at(pos@, pos@.current + 1),
        r.1 == source@[pos.current as int],
{
    let c = source[pos.current];
    let n = source.len();
    (pos.next_pos(), c)
}

/// Reads the next character if it is `expected`; tells whether it did.
pub fn advance_on_match(pos: ScannerPosition, source: &[char], expected: char) -> (r: (
    ScannerPosition,
    bool,
))
    ensures
        r.1 == (pos.current < source@.len() && source@[pos.current as int] == expected),
        r.0@ == if r.1 {
            at(pos@, pos@.current + 1)
        } else {
            pos@
        },
{
    if is_at_end(pos.current, source.len()) || source[pos.current] != expected {
        (pos, false)
    } else {
        (pos.next_pos(), true)
    }
}

/// The next character, or `'\0'` at the end.
pub fn peek(pos: &ScannerPosition, source: &[char]) -> (c: char)
    ensures
        c == spec_peek(source@, pos.current as int),
{
    if is_at_end(pos.current, source.len()) {
        '\0'
    } else {
        source[pos.current]
    }
}

/// The character after the next one, or `'\0'` past the end.
pub fn peek_next(pos: &ScannerPosition, source: &[char]) -> (c: char)
    ensures
        c == spec_peek(source@, pos.current + 1),
{
    if source.len() == 0 || pos.current >= source.len() - 1 {
        '\0'
    } else {
        source[pos.current + 1]
    }
}

fn is_digit_char(c: char) -> (r: bool)
    ensures
        r == is_digit(c),
{
    '0' <= c && c <= '9'
}

fn is_alpha_char(c: char) -> (r: bool)
    ensures
        r == is_alpha(c),
{
    ('a' <= c && c <= 'z') || ('A' <= c && c <= 'Z') || c == '_'
}

/// The position of the character just read.
pub open spec fn back_one(pos: PosView) -> PosView {
    PosView { current: pos.current - 1, ..pos }
}

/// Room for the line count: counting every line break from index `i` on,
/// starting at `line`, stays below `u32::MAX`.
pub open spec fn line_room(s: Seq<char>, i: int, line: int) -> bool {
    line + newlines(s.subrange(i, s.len() as int)) < u32::MAX
}

/// What the helpers for literals may assume: the lexeme's first character
/// has just been read, and the line count has room for the rest.
pub open spec fn after_first(s: Seq<char>, pos: PosView) -> bool {
    &&& 1 <= pos.current <= s.len()
    &&& line_room(s, pos.current - 1, pos.line)
    &&& lexeme_fits(s, back_one(pos))
}

#[verifier::loop_isolation(false)]
fn string_token(pos: &ScannerPosition, source: &[char]) -> (r: Result<
    (ScannerPosition, TokenInfo),
    InterpreterError,
>)
    requires
        after_first(source@, pos@),
        source@[pos.current - 1] == '"',
    ensures
        step_view(
            match r {
                Ok((p, t)) => Ok((p, Some(t))),
                Err(e) => Err(e),
            },
        ) == spec_scan_token(source@, back_one(pos@)),
{
    let ghost s = source@;
    let ghost i0 = pos.current as int;
    proof {
        lemma_run_end(s, i0, CharClass::StringText);
    }
    let ghost old_pos = *pos;
    let mut pos = ScannerPosition { ..*pos };
    assert(s.subrange(i0, i0) =~= Seq::<char>::empty());

    while peek(&pos, source) != '"'
        invariant
            s == source@,
            1 <= i0 <= pos.current <= s.len(),
            pos.start == old_pos.start,
            old_pos.current == i0,
            old_pos@.line == old_pos.line,
            line_room(s, i0 - 1, old_pos@.line),
            s[i0 - 1] == '"',
            lexeme_fits(s, back_one(old_pos@)),
            string_stop(s, pos.current as int) == string_stop(s, i0),
            string_stop(s, i0) <= s.len(),
            pos.current <= string_stop(s, i0),
            pos@.line == old_pos@.line + newlines(s.subrange(i0, pos.current as int)),
        decreases s.len() - pos.current,
    {
        let c = peek(&pos, source);
        if c == '\0' {
            proof {
                reveal_strlit("Unterminated string.");
                assert(string_stop(s, pos.current as int) == pos.current as int);
            }
            return Err(
                InterpreterError::scanner_error(pos.line, String::from_str("Unterminated string.")),
            );
        }
        proof {
            lemma_newlines_push(s, pos.current as int);
            lemma_newlines_split(s, i0, pos.current as int + 1);
            lemma_newlines_split(s, i0, pos.current as int);
            lemma_newlines_within(
                s,
                i0 - 1,
                i0,
                pos.current as int + 1,
                s.len() as int,
            );
            assert(string_stop(s, pos.current as int) == string_stop(s, pos.current as int + 1));
            lemma_run_end(s, pos.current as int + 1, CharClass::StringText);
        }
        if c == '\n' {
            pos = pos.next_line();
        }
        pos = advance(&pos, source).0;
    }

    // The closing "
    pos = advance(&pos, source).0;

    let value: String = chars_to_string(source, pos.start + 1, pos.current - 1);
    let mut lexeme = String::from_str("\"");
    lexeme.append(value.as_str());
    lexeme.append("\"");
    proof {
        reveal_strlit("\"");
        assert(lexeme@ =~= seq!['"'] + value@ + seq!['"']);
    }
    let token = TokenInfo { token: Token::StrLiteral { lexeme, value }, line: pos.line };

    Ok((pos, token))
}

fn number_token(pos: &ScannerPosition, source: &[char]) -> (r: Result<
    (ScannerPosition, TokenInfo),
    InterpreterError,
>)
    requires
        after_first(source@, pos@),
        is_digit(source@[pos.current - 1]),
    ensures
        step_view(
            match r {
                Ok((p, t)) => Ok((p, Some(t))),
                Err(e) => Err(e),
            },
        ) == spec_scan_token(source@, back_one(pos@)),
{
    let ghost s = source@;
    let ghost i0 = pos.current as int;
    proof {
        lemma_run_end(s, i0, CharClass::Digit);
    }
    let mut pos = ScannerPosition { ..*pos };
    let ghost line0 = pos.line;
    let ghost start0 = pos.start;

    while is_digit_char(peek(&pos, source))
        invariant
            s == source@,
            i0 <= pos.current <= s.len(),
            digits_end(s, pos.current as int) == digits_end(s, i0),
            pos.line == line0,
            pos.start == start0,
        decreases s.len() - pos.current,
    {
        pos = advance(&pos, source).0;
    }

    if peek(&pos, source) == '.' && is_digit_char(peek_next(&pos, source)) {
        // Consume the "."
        pos = advance(&pos, source).0;
        proof {
            lemma_run_end(s, pos.current as int, CharClass::Digit);
        }
        let ghost i1 = pos.current as int;

        while is_digit_char(peek(&pos, source))
            invariant
                s == source@,
                i1 <= pos.current <= s.len(),
                digits_end(s, pos.current as int) == digits_end(s, i1),
                pos.line == line0,
                pos.start == start0,
            decreases s.len() - pos.current,
        {
            pos = advance(&pos, source).0;
        }
    }

    let lexeme: String = chars_to_string(source, pos.start, pos.current);
    let text: Vec<char> = copy_chars(source, pos.start, pos.current);
    if !is_float_text(&text) {
        proof {
            reveal_strlit("invalid float literal");
        }
        return Err(
            InterpreterError::scanner_error(pos.line, String::from_str("invalid float literal")),
        );
    }
    let token = TokenInfo { token: Token::NumLiteral { lexeme }, line: pos.line };

    Ok((pos, token))
}

fn identifier_token(pos: &ScannerPosition, source: &[char]) -> (r: (ScannerPosition, TokenInfo))
    requires
        after_first(source@, pos@),
        is_alpha(source@[pos.current - 1]),
    ensures
        step_view(Ok((r.0, Some(r.1)))) == spec_scan_token(source@, back_one(pos@)),
{
    let ghost s = source@;
    let ghost i0 = pos.current as int;
    proof {
        lemma_run_end(s, i0, CharClass::WordChar);
    }
    let mut pos = ScannerPosition { ..*pos };
    let ghost line0 = pos.line;
    let ghost start0 = pos.start;

    while is_alpha_char(peek(&pos, source)) || is_digit_char(peek(&pos, source))
        invariant
            s == source@,
            i0 <= pos.current <= s.len(),
            word_end(s, pos.current as int) == word_end(s, i0),
            pos.line == line0,
            pos.start == start0,
        decreases s.len() - pos.current,
    {
        pos = advance(&pos, source).0;
    }

    let text: String = chars_to_string(source, pos.start, pos.current);

    let token = match Token::try_from_word(text.as_str()) {
        Some(t) => t,
        None => Token::Identifier { lexeme: text },
    };

    let token_info = TokenInfo { token, line: pos.line };
    (pos, token_info)
}

/// The token for `t` on `line`.
fn plain_at(t: Token, line: u32) -> (r: Option<TokenInfo>)
    ensures
        r matches Some(i) && i@ == (TokenInfoView { token: t@, line }),
{
    Some(TokenInfo::new(t, line))
}

/// Scans the lexeme whose first character is at `pos.current`. A literal's
/// text is taken from `pos.start` on: the scanner itself always calls this
/// with both at the lexeme's first character.
pub fn scan_token(pos: &ScannerPosition, source: &[char]) -> (r: Result<
    (ScannerPosition, Option<TokenInfo>),
    InterpreterError,
>)
    requires
        pos.current < source@.len(),
        lexeme_fits(source@, pos@),
        line_room(source@, pos@.current, pos@.line),
    ensures
        step_view(r) == spec_scan_token(source@, pos@),
        r matches Ok((q, _)) ==> {
            &&& q.start == pos.start
            &&& pos.current < q.current <= source@.len()
            &&& q.line == pos.line + newlines(source@.subrange(pos.current as int, q.current as int))
        },
{
    let ghost s = source@;
    proof {
        lemma_scan_token_moves(s, pos@);
        lemma_newlines_push(s, pos.current as int);
        lemma_newlines_split(s, pos.current as int, pos.current as int + 1);
        lemma_newlines_split(s, 0, pos.current as int);
        lemma_newlines_within(s, pos.current as int, pos.current as int, pos.current as int + 1, s.len() as int);
        assert(s.take(pos.current as int + 1).subrange(pos.current as int, pos.current as int + 1) =~= s.subrange(pos.current as int, pos.current as int + 1));
    }
    let (pos, c) = advance(pos, source);
    match c {
        '(' => Ok((pos, plain_at(Token::LeftParen, pos.line))),
        ')' => Ok((pos, plain_at(Token::RightParen, pos.line))),
        '{' => Ok((pos, plain_at(Token::LeftBrace, pos.line))),
        '}' => Ok((pos, plain_at(Token::RightBrace, pos.line))),
        ',' => Ok((pos, plain_at(Token::Comma, pos.line))),
        '.' => Ok((pos, plain_at(Token::Dot, pos.line))),
        '-' => Ok((pos, plain_at(Token::Minus, pos.line))),
        '+' => Ok((pos, plain_at(Token::Plus, pos.line))),
        ';' => Ok((pos, plain_at(Token::Semicolon, pos.line))),
        '*' => Ok((pos, plain_at(Token::Star, pos.line))),
        '!' => match advance_on_match(pos, source, '=') {
            (pos, true) => Ok((pos, plain_at(Token::BangEqual, pos.line))),
            (pos, false) => Ok((pos, plain_at(Token::Bang, pos.line))),
        },
        '=' => match advance_on_match(pos, source, '=') {
            (pos, true) => Ok((pos, plain_at(Token::EqualEqual, pos.line))),
            (pos, false) => Ok((pos, plain_at(Token::Equal, pos.line))),
        },
        '<' => match advance_on_match(pos, source, '=') {
            (pos, true) => Ok((pos, plain_at(Token::LessEqual, pos.line))),
            (pos, false) => Ok((pos, plain_at(Token::Less, pos.line))),
        },
        '>' => match advance_on_match(pos, source, '=') {
            (pos, true) => Ok((pos, plain_at(Token::GreaterEqual, pos.line))),
            (pos, false) => Ok((pos, plain_at(Token::Greater, pos.line))),
        },
        '/' => match advance_on_match(pos, source, '/') {
            (pos, true) => {
                // A comment goes until the end of the line.
                let mut pos = pos;
                let ghost i1 = pos.current as int;
                let ghost line0 = pos.line;
                let ghost start0 = pos.start;
                proof {
                    lemma_run_end(s, i1, CharClass::CommentText);
                }
                while peek(&pos, source) != '\n' && peek(&pos, source) != '\0'
                    invariant
                        s == source@,
                        i1 <= pos.current <= s.len(),
                        comment_end(s, pos.current as int) == comment_end(s, i1),
                        pos.line == line0,
                        pos.start == start0,
                    decreases s.len() - pos.current,
                {
                    pos = advance(&pos, source).0;
                }
                Ok((pos, None))
            },
            (pos, false) => Ok((pos, plain_at(Token::Slash, pos.line))),
        },
        ' ' | '\r' | '\t' => Ok((pos, None)),
        '\n' => Ok((pos.next_line(), None)),
        '"' => match string_token(&pos, source) {
            Ok(ps) => Ok((ps.0, Some(ps.1))),
            Err(e) => Err(e),
        },
        _ => {
            if is_digit_char(c) {
                match number_token(&pos, source) {
                    Ok(ps) => Ok((ps.0, Some(ps.1))),
                    Err(e) => Err(e),
                }
            } else if is_alpha_char(c) {
                let ps = identifier_token(&pos, source);
                Ok((ps.0, Some(ps.1)))
            } else {
                let message = String::from_str("Unexpected character.");
                Err(InterpreterError::scanner_error(pos.line, message))
            }
        },
    }
}


/// No single step of the scanner makes an end-of-input token.
proof fn lemma_scan_token_not_eof(s: Seq<char>, p: PosView)
    requires
        p.current < s.len(),
    ensures
        spec_scan_token(s, p) matches Ok((_, Some(t))) ==> t.token.kind != TokenKind::Eof,
{
    let c = s[p.current];
    let i = p.current + 1;
    if is_alpha(c) && single_kind(c) is None && pair_kinds(c) is None && c != '/' && c != ' '
        && c != '\r' && c != '\t' && c != '\n' && c != '"' && !is_digit(c) {
        let text = s.subrange(p.start, word_end(s, i));
        if let Some(k) = keyword_kind(text) {
            assert(k != TokenKind::Eof);
        }
    }
}

proof fn lemma_scan_from_eof(s: Seq<char>, p: PosView)
    ensures
        scan_from(s, p) matches Ok(t) ==> {
            &&& t.len() > 0
            &&& t.last().token.kind == TokenKind::Eof
            &&& forall|k: int| 0 <= k < t.len() - 1 ==> (#[trigger] t[k]).token.kind != TokenKind::Eof
        },
    decreases s.len() - p.current,
{
    if p.current < s.len() {
        lemma_scan_token_progress(s, p);
        lemma_scan_token_not_eof(s, p);
        if let Ok((q, tok)) = spec_scan_token(s, p) {
            let q2 = PosView { start: q.current, ..q };
            lemma_scan_from_eof(s, q2);
            if let Ok(rest) = scan_from(s, q2) {
                let t = opt_seq(tok) + rest;
                assert forall|k: int| 0 <= k < t.len() - 1 implies (#[trigger] t[k]).token.kind
                    != TokenKind::Eof by {
                    if k >= opt_seq(tok).len() {
                        assert(t[k] == rest[k - opt_seq(tok).len()]);
                    }
                }
                assert(t.last() == rest.last());
            }
        }
    }
}

/// Scanning a source that scans without error gives its tokens followed by
/// exactly one end-of-input token, at the end.
pub proof fn law_scan_ends_with_eof(s: Seq<char>)
    ensures
        spec_scan(s) matches Ok(t) ==> {
            &&& t.len() > 0
            &&& t.last().token.kind == TokenKind::Eof
            &&& forall|k: int| 0 <= k < t.len() - 1 ==> (#[trigger] t[k]).token.kind != TokenKind::Eof
        },
{
    lemma_scan_from_eof(s, first_position());
}

/// A letter, a digit or an underscore: what a name is made of.
pub open spec fn name_char(c: char) -> bool {
    ('a' <= c <= 'z') || ('A' <= c <= 'Z') || ('0' <= c <= '9') || c == '_'
}

/// A name or keyword is the whole run of letters, digits and underscores
/// that starts at its first letter or underscore: every character it takes
/// is one of them, and the character after it is not. Its text is the
/// source from the lexeme's start to there, it is a keyword's token exactly
/// when that text is the keyword, and it is on the line where it starts.
pub proof fn law_names_are_whole_words(s: Seq<char>, p: PosView)
    requires
        0 <= p.current < s.len(),
        ('a' <= s[p.current] <= 'z') || ('A' <= s[p.current] <= 'Z') || s[p.current] == '_',
    ensures
        spec_scan_token(s, p) matches Ok((q, Some(tok))) && {
            let text = s.subrange(p.start, q.current);
            &&& p.current < q.current <= s.len()
            &&& forall|k: int| p.current <= k < q.current ==> name_char(#[trigger] s[k])
            &&& q.current == s.len() || !name_char(s[q.current])
            &&& q.line == p.line
            &&& tok.line == p.line as u32
            &&& match keyword_kind(text) {
                Some(k) => tok.token == plain_token(k),
                None => tok.token.kind == TokenKind::Identifier && tok.token.text == text,
            }
        },
{
    let c = s[p.current];
    lemma_run_end(s, p.current + 1, CharClass::WordChar);
    let e = word_end(s, p.current + 1);
    assert(single_kind(c) is None && pair_kinds(c) is None);
    assert(!is_digit(c) && is_alpha(c));
    let text = s.subrange(p.start, e);
    assert(spec_scan_token(s, p) == Ok::<(PosView, Option<TokenInfoView>), ErrorView>((
        at(p, e),
        Some(
            TokenInfoView {
                token: match keyword_kind(text) {
                    Some(k) => plain_token(k),
                    None => TokenView { kind: TokenKind::Identifier, text, value: Seq::empty() },
                },
                line: p.line as u32,
            },
        ),
    )));
    assert forall|k: int| p.current <= k < e implies name_char(#[trigger] s[k]) by {
        if k > p.current {
            assert(in_class(CharClass::WordChar, s[k]));
        }
    }
}

/// `!`, `=`, `<` and `>` take a following `=` into one token (`!=`, `==`,
/// `<=`, `>=`) and otherwise stand alone; either way the token is on the
/// line where it starts.
pub proof fn law_operator_tokens(s: Seq<char>, p: PosView)
    requires
        0 <= p.current < s.len(),
    ensures
        ({
            let c = s[p.current];
            let two = p.current + 1 < s.len() && s[p.current + 1] == '=';
            let kinds = if c == '!' {
                Some((TokenKind::Bang, TokenKind::BangEqual))
            } else if c == '=' {
                Some((TokenKind::Equal, TokenKind::EqualEqual))
            } else if c == '<' {
                Some((TokenKind::Less, TokenKind::LessEqual))
            } else if c == '>' {
                Some((TokenKind::Greater, TokenKind::GreaterEqual))
            } else {
                None
            };
            kinds matches Some((one, both)) ==> spec_scan_token(s, p) == Ok::<
                (PosView, Option<TokenInfoView>),
                ErrorView,
            >(
                (
                    PosView { current: if two { p.current + 2 } else { p.current + 1 }, ..p },
                    Some(
                        TokenInfoView {
                            token: plain_token(if two { both } else { one }),
                            line: p.line as u32,
                        },
                    ),
                ),
            )
        }),
{
}

/// A run of class `k` from `i` ends at `d` where everything from `i` to `d`
/// is of the class and what follows `d` is not.
proof fn lemma_run_end_at(x: Seq<char>, i: int, d: int, k: CharClass)
    requires
        0 <= i <= d <= x.len(),
        forall|j: int| i <= j < d ==> in_class(k, #[trigger] x[j]),
        d == x.len() || !in_class(k, x[d]),
    ensures
        run_end(x, i, k) == d,
    decreases d - i,
{
    if i < d {
        lemma_run_end_at(x, i + 1, d, k);
    }
}

/// Digits, then a `.` and digits where `frac`, make a text that std reads
/// as a number.
proof fn lemma_float_digits(text: Seq<char>, d: int, frac: bool)
    requires
        1 <= d <= text.len(),
        forall|k: int| 0 <= k < d ==> '0' <= #[trigger] text[k] <= '9',
        frac ==> d + 1 < text.len() && text[d] == '.',
        frac ==> forall|k: int| d < k < text.len() ==> '0' <= #[trigger] text[k] <= '9',
        !frac ==> d == text.len(),
    ensures
        float_text(text),
{
    reveal_strlit("inf");
    reveal_strlit("infinity");
    reveal_strlit("nan");
    assert(!is_sign(text[0]));
    assert(text[0] != 'i' && text[0] != capital('i') && text[0] != 'n' && text[0] != capital('n'));
    assert(!spells(text, "inf"@) && !spells(text, "infinity"@) && !spells(text, "nan"@));
    lemma_run_end_at(text, 0, d, CharClass::Digit);
    if frac {
        assert(spec_peek(text, d) == '.');
        lemma_run_end_at(text, d + 1, text.len() as int, CharClass::Digit);
    }
    assert(decimal_text(text));
}

/// A number read from its first digit is the whole run of digits, then a
/// `.` and the whole run of digits after it where a digit follows the `.`:
/// the character after it is no digit, nor a `.` followed by a digit where
/// it has no fraction yet.
pub proof fn law_numbers_are_whole(s: Seq<char>, p: PosView)
    requires
        0 <= p.start == p.current < s.len(),
        '0' <= s[p.current] <= '9',
    ensures
        spec_scan_token(s, p) matches Ok((q, Some(tok))) && {
            let text = s.subrange(p.current, q.current);
            &&& p.current < q.current <= s.len()
            &&& tok.token.kind == TokenKind::NumLiteral
            &&& tok.token.text == text
            &&& forall|k: int| 0 <= k < text.len() ==> ('0' <= #[trigger] text[k] <= '9') || (text[k] == '.'
                && 0 < k < text.len() - 1)
            &&& !(q.current < s.len() && '0' <= s[q.current] <= '9')
            &&& (forall|k: int| 0 <= k < text.len() ==> '0' <= #[trigger] text[k] <= '9') ==> !(q.current
                + 1 < s.len() && s[q.current] == '.' && '0' <= s[q.current + 1] <= '9')
        },
{
    let i = p.current + 1;
    lemma_run_end(s, i, CharClass::Digit);
    let e1 = digits_end(s, i);
    let frac = spec_peek(s, e1) == '.' && is_digit(spec_peek(s, e1 + 1));
    if frac {
        lemma_run_end(s, e1 + 1, CharClass::Digit);
    }
    let e = number_end(s, p.current);
    let text = s.subrange(p.current, e);
    assert forall|k: int| 0 <= k < text.len() implies ('0' <= #[trigger] text[k] <= '9') || (text[k]
        == '.' && 0 < k < text.len() - 1) by {
        let j = p.current + k;
        assert(text[k] == s[j]);
        if i <= j < e1 || (frac && j > e1) {
            assert(in_class(CharClass::Digit, s[j]));
        }
    }
    if frac {
        assert(text[e1 - p.current] == '.');
    }
    lemma_float_digits(text, e1 - p.current, frac);
    assert(float_text(text));
}

/// Where a string that opens at `i` is closed: a `"` after it with no `"`
/// or NUL character in between.
pub open spec fn closes_at(s: Seq<char>, i: int, j: int) -> bool {
    &&& i < j < s.len()
    &&& s[j] == '"'
    &&& forall|k: int| i < k < j ==> #[trigger] s[k] != '"' && s[k] != '\0'
}

/// A string literal runs from its opening quote to the next quote, which
/// must come before the end of the source and before any NUL character;
/// its value is what lies between the quotes, its lexeme that with the
/// quotes, and it stands on the line where it closes. Without a closing
/// quote the scan stops with "Unterminated string.".
pub proof fn law_strings(s: Seq<char>, p: PosView)
    requires
        0 <= p.start == p.current < s.len(),
        s[p.current] == '"',
    ensures
        (spec_scan_token(s, p) is Ok) == exists|j: int| closes_at(s, p.current, j),
        forall|j: int| #[trigger] closes_at(s, p.current, j) ==> {
            let value = s.subrange(p.current + 1, j);
            let line = p.line + newlines(value);
            spec_scan_token(s, p) == Ok::<(PosView, Option<TokenInfoView>), ErrorView>(
                (
                    PosView { current: j + 1, line, ..p },
                    Some(
                        TokenInfoView {
                            token: TokenView {
                                kind: TokenKind::StrLiteral,
                                text: seq!['"'] + value + seq!['"'],
                                value,
                            },
                            line: line as u32,
                        },
                    ),
                ),
            )
        },
        spec_scan_token(s, p) matches Err(e) ==> e matches ErrorView::Scanner { line: _, message }
            && message == "Unterminated string."@,
{
    let i = p.current + 1;
    lemma_run_end(s, i, CharClass::StringText);
    let stop = string_stop(s, i);
    assert forall|j: int| #[trigger] closes_at(s, p.current, j) implies stop == j by {
        if stop < j {
            assert(!in_class(CharClass::StringText, s[stop]));
        }
        if stop > j {
            assert(in_class(CharClass::StringText, s[j]));
        }
    }
    if stop < s.len() && s[stop] == '"' {
        assert forall|k: int| p.current < k < stop implies #[trigger] s[k] != '"' && s[k] != '\0' by {
            assert(in_class(CharClass::StringText, s[k]));
        }
        assert(closes_at(s, p.current, stop));
    }
}

/// A `//` comment makes no token and runs to the end of its line: it takes
/// no line break, and stops at the next line break, NUL character or the
/// end of the source. A single `/` is the slash token.
pub proof fn law_comments(s: Seq<char>, p: PosView)
    requires
        0 <= p.current < s.len(),
        s[p.current] == '/',
    ensures
        p.current + 1 < s.len() && s[p.current + 1] == '/' ==> (spec_scan_token(s, p) matches Ok((q, None))
            && {
            &&& q.line == p.line
            &&& q.start == p.start
            &&& p.current < q.current <= s.len()
            &&& forall|k: int| p.current <= k < q.current ==> #[trigger] s[k] != '\n' && s[k] != '\0'
            &&& q.current == s.len() || s[q.current] == '\n' || s[q.current] == '\0'
        }),
        !(p.current + 1 < s.len() && s[p.current + 1] == '/') ==> (spec_scan_token(s, p) matches Ok(
            (q, Some(tok)),
        ) && q.current == p.current + 1 && tok.token == plain_token(TokenKind::Slash)),
{
    if p.current + 1 < s.len() && s[p.current + 1] == '/' {
        let i = p.current + 2;
        lemma_run_end(s, i, CharClass::CommentText);
        let e = comment_end(s, i);
        assert forall|k: int| p.current <= k < e implies #[trigger] s[k] != '\n' && s[k] != '\0' by {
            if k >= i {
                assert(in_class(CharClass::CommentText, s[k]));
            }
        }
    }
}

} // verus!
