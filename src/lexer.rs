use vstd::prelude::*;
use vstd::string::StringExecFns;

use crate::text::{
    alphabetic_char, alphanumeric_char, append_range, chars_from, chars_of, is_alphabetic,
    is_alphanumeric, is_ascii_letter, is_digit, is_digit_char, push_char, report, report_text, string_from,
};
use crate::token::{keyword_kind, word_kind, Token, TokenType, TokenView};

verus! {

/// A lexical error: the line where it was found and what went wrong.
#[derive(Debug, Clone)]
pub struct LexError {
    pub line: usize,
    pub message: String,
}

pub struct LexErrorView {
    pub line: nat,
    pub message: Seq<char>,
}

impl LexError {
    /// The report of this error: `[line N] Error: <message>`.
    pub fn to_string(&self) -> (r: String)
        ensures
            r@ == report_text(self.line as nat, Seq::empty(), self.message@),
    {
        proof {
            reveal_strlit("");
        }
        report(self.line, "", self.message.as_str())
    }
}

impl View for LexError {
    type V = LexErrorView;

    open spec fn view(&self) -> LexErrorView {
        LexErrorView { line: self.line as nat, message: self.message@ }
    }
}

/// What one scan of a source text yields: every token, ending with the
/// end-of-input token, and every lexical error, in source order.
pub struct LexResult {
    pub tokens: Vec<Token>,
    pub errors: Vec<LexError>,
}

pub open spec fn tokens_view(v: Seq<Token>) -> Seq<TokenView> {
    v.map_values(|t: Token| t@)
}

pub open spec fn errors_view(v: Seq<LexError>) -> Seq<LexErrorView> {
    v.map_values(|e: LexError| e@)
}

// ---------------------------------------------------------------------------
// The lexical grammar, stated over the characters of the source.
// ---------------------------------------------------------------------------

/// The character at `i`, or NUL past either end.
pub open spec fn char_at(src: Seq<char>, i: int) -> char {
    if 0 <= i < src.len() {
        src[i]
    } else {
        '\0'
    }
}

/// A character that may start a word: an ASCII letter or `_`, or beyond
/// ASCII an alphabetic character.
pub open spec fn is_alpha_char(c: char) -> bool {
    if c <= '\x7f' {
        is_ascii_letter(c) || c == '_'
    } else {
        alphabetic_char(c)
    }
}

/// A character that may continue a word: an ASCII letter, digit or `_`, or
/// beyond ASCII an alphabetic or numeric character.
pub open spec fn is_word_char(c: char) -> bool {
    if c <= '\x7f' {
        is_ascii_letter(c) || is_digit_char(c) || c == '_'
    } else {
        alphanumeric_char(c)
    }
}

/// The first position at or after `i` that holds no decimal digit.
pub open spec fn digits_end(src: Seq<char>, i: int) -> int
    decreases src.len() - i,
{
    if 0 <= i < src.len() && is_digit_char(src[i]) {
        digits_end(src, i + 1)
    } else {
        i
    }
}

/// The first position at or after `i` that holds no word character.
pub open spec fn word_end(src: Seq<char>, i: int) -> int
    decreases src.len() - i,
{
    if 0 <= i < src.len() && is_word_char(src[i]) {
        word_end(src, i + 1)
    } else {
        i
    }
}

/// The first position at or after `i` that holds a newline, or the end.
pub open spec fn line_end(src: Seq<char>, i: int) -> int
    decreases src.len() - i,
{
    if 0 <= i < src.len() && src[i] != '\n' {
        line_end(src, i + 1)
    } else {
        i
    }
}

/// The first position at or after `i` that holds a double quote, or the end.
pub open spec fn quote_end(src: Seq<char>, i: int) -> int
    decreases src.len() - i,
{
    if 0 <= i < src.len() && src[i] != '"' {
        quote_end(src, i + 1)
    } else {
        i
    }
}

/// The end of a number whose integer digits continue from `i`: a fraction
/// is taken only where a digit follows the dot.
pub open spec fn number_end(src: Seq<char>, i: int) -> int {
    let e = digits_end(src, i);
    if char_at(src, e) == '.' && is_digit_char(char_at(src, e + 1)) {
        digits_end(src, e + 1)
    } else {
        e
    }
}

pub open spec fn count_newlines(s: Seq<char>) -> nat
    decreases s.len(),
{
    if s.len() == 0 {
        0
    } else {
        count_newlines(s.drop_last()) + if s.last() == '\n' {
            1nat
        } else {
            0nat
        }
    }
}

pub open spec fn strip_leading_zeros(s: Seq<char>) -> Seq<char>
    decreases s.len(),
{
    if s.len() > 1 && s[0] == '0' {
        strip_leading_zeros(s.drop_first())
    } else {
        s
    }
}

pub open spec fn strip_trailing_zeros(s: Seq<char>) -> Seq<char>
    decreases s.len(),
{
    if s.len() > 0 && s.last() == '0' {
        strip_trailing_zeros(s.drop_last())
    } else {
        s
    }
}

/// The shortest decimal form of a number with the given integer and
/// fraction digits, with at least one digit on each side of the dot.
pub open spec fn number_text(int_digits: Seq<char>, frac_digits: Seq<char>) -> Seq<char> {
    let f = strip_trailing_zeros(frac_digits);
    strip_leading_zeros(int_digits) + seq!['.'] + if f.len() == 0 {
        seq!['0']
    } else {
        f
    }
}

/// The decoded literal of the number lexeme `src[pos..end]`: its exact
/// decimal value, written with leading zeros and trailing fraction zeros
/// removed and at least one digit after the dot (`007` gives `7.0`, `1.50`
/// gives `1.5`). The scanner holds no floating-point value, so the literal
/// is not rounded to a double: up to 15 significant digits this is also the
/// shortest form of the double the numeral denotes; a longer numeral keeps
/// every digit here, and only evaluation rounds it to a double.
pub open spec fn number_literal(src: Seq<char>, pos: int, end: int) -> Seq<char> {
    let e = digits_end(src, pos + 1);
    let frac = if end > e {
        src.subrange(e + 1, end)
    } else {
        Seq::empty()
    };
    number_text(src.subrange(pos, e), frac)
}

pub open spec fn single_kind(c: char) -> Option<TokenType> {
    if c == '(' {
        Some(TokenType::LEFT_PAREN)
    } else if c == ')' {
        Some(TokenType::RIGHT_PAREN)
    } else if c == '{' {
        Some(TokenType::LEFT_BRACE)
    } else if c == '}' {
        Some(TokenType::RIGHT_BRACE)
    } else if c == ',' {
        Some(TokenType::COMMA)
    } else if c == '.' {
        Some(TokenType::DOT)
    } else if c == ';' {
        Some(TokenType::SEMICOLON)
    } else if c == '-' {
        Some(TokenType::MINUS)
    } else if c == '+' {
        Some(TokenType::PLUS)
    } else if c == '*' {
        Some(TokenType::STAR)
    } else {
        None
    }
}

/// The kinds of `c` alone and of `c` followed by `=`, for the four
/// characters that may take a trailing `=`.
pub open spec fn comparison_kinds(c: char) -> Option<(TokenType, TokenType)> {
    if c == '>' {
        Some((TokenType::GREATER, TokenType::GREATER_EQUAL))
    } else if c == '<' {
        Some((TokenType::LESS, TokenType::LESS_EQUAL))
    } else if c == '=' {
        Some((TokenType::EQUAL, TokenType::EQUAL_EQUAL))
    } else if c == '!' {
        Some((TokenType::BANG, TokenType::BANG_EQUAL))
    } else {
        None
    }
}

pub open spec fn unterminated_message() -> Seq<char> {
    "Unterminated string."@
}

pub open spec fn unexpected_message(c: char) -> Seq<char> {
    "Unexpected character: "@.push(c)
}

/// A character that starts an identifier or a reserved word.
pub open spec fn starts_word(c: char) -> bool {
    &&& single_kind(c) is None
    &&& comparison_kinds(c) is None
    &&& c != '/' && c != '"'
    &&& !is_digit_char(c)
    &&& is_alpha_char(c)
}

/// The outcome of scanning from one position: the token or error it gives,
/// if any, where the next scan starts, and the line counter after it.
pub struct ScanStep {
    pub token: Option<TokenView>,
    pub error: Option<LexErrorView>,
    pub next: int,
    pub line: nat,
}

pub open spec fn emit(kind: TokenType, src: Seq<char>, pos: int, next: int, line: nat) -> ScanStep {
    ScanStep {
        token: Some(
            TokenView { kind, lexeme: src.subrange(pos, next), literal: None, line },
        ),
        error: None,
        next,
        line,
    }
}

pub open spec fn skip(next: int, line: nat) -> ScanStep {
    ScanStep { token: None, error: None, next, line }
}

/// One scan from `pos`, where the line counter reads `line`.
pub open spec fn scan_step(src: Seq<char>, pos: int, line: nat) -> ScanStep {
    let c = src[pos];
    if single_kind(c) is Some {
        emit(single_kind(c)->0, src, pos, pos + 1, line)
    } else if c == '/' {
        if char_at(src, pos + 1) == '/' {
            skip(line_end(src, pos + 2), line)
        } else {
            emit(TokenType::SLASH, src, pos, pos + 1, line)
        }
    } else if comparison_kinds(c) is Some {
        let (one, two) = comparison_kinds(c)->0;
        if char_at(src, pos + 1) == '=' {
            emit(two, src, pos, pos + 2, line)
        } else {
            emit(one, src, pos, pos + 1, line)
        }
    } else if c == '"' {
        let q = quote_end(src, pos + 1);
        let l = line + count_newlines(src.subrange(pos + 1, q));
        if q >= src.len() {
            ScanStep {
                token: None,
                error: Some(LexErrorView { line: l, message: unterminated_message() }),
                next: q,
                line: l,
            }
        } else {
            ScanStep {
                token: Some(
                    TokenView {
                        kind: TokenType::STRING,
                        lexeme: src.subrange(pos, q + 1),
                        literal: Some(src.subrange(pos + 1, q)),
                        line: l,
                    },
                ),
                error: None,
                next: q + 1,
                line: l,
            }
        }
    } else if is_digit_char(c) {
        let e = number_end(src, pos + 1);
        ScanStep {
            token: Some(
                TokenView {
                    kind: TokenType::NUMBER,
                    lexeme: src.subrange(pos, e),
                    literal: Some(number_literal(src, pos, e)),
                    line,
                },
            ),
            error: None,
            next: e,
            line,
        }
    } else if is_alpha_char(c) {
        let e = word_end(src, pos + 1);
        emit(word_kind(src.subrange(pos, e)), src, pos, e, line)
    } else if c == ' ' || c == '\r' || c == '\t' {
        skip(pos + 1, line)
    } else if c == '\n' {
        skip(pos + 1, line + 1)
    } else {
        ScanStep {
            token: None,
            error: Some(LexErrorView { line, message: unexpected_message(c) }),
            next: pos + 1,
            line,
        }
    }
}

pub open spec fn opt_seq<A>(o: Option<A>) -> Seq<A> {
    match o {
        Some(a) => seq![a],
        None => Seq::empty(),
    }
}

pub open spec fn eof_view(line: nat) -> TokenView {
    TokenView { kind: TokenType::EOF, lexeme: Seq::empty(), literal: None, line }
}

/// The tokens and errors of scanning `src` from `pos` to the end.
pub open spec fn scan_from(src: Seq<char>, pos: int, line: nat) -> (Seq<TokenView>, Seq<LexErrorView>)
    decreases src.len() - pos,
{
    if pos < 0 || pos >= src.len() {
        (seq![eof_view(line)], Seq::empty())
    } else {
        let st = scan_step(src, pos, line);
        if st.next <= pos || st.next > src.len() {
            (seq![eof_view(line)], Seq::empty())
        } else {
            let rest = scan_from(src, st.next, st.line);
            (opt_seq(st.token) + rest.0, opt_seq(st.error) + rest.1)
        }
    }
}

/// The tokens and errors of a whole source text.
pub open spec fn lex_spec(src: Seq<char>) -> (Seq<TokenView>, Seq<LexErrorView>) {
    scan_from(src, 0, 1)
}

// ---------------------------------------------------------------------------
// Facts about the grammar.
// ---------------------------------------------------------------------------

proof fn lemma_digits_end(src: Seq<char>, i: int)
    requires
        0 <= i <= src.len(),
    ensures
        i <= digits_end(src, i) <= src.len(),
    decreases src.len() - i,
{
    if i < src.len() && is_digit_char(src[i]) {
        lemma_digits_end(src, i + 1);
    }
}

proof fn lemma_word_end(src: Seq<char>, i: int)
    requires
        0 <= i <= src.len(),
    ensures
        i <= word_end(src, i) <= src.len(),
    decreases src.len() - i,
{
    if i < src.len() && is_word_char(src[i]) {
        lemma_word_end(src, i + 1);
    }
}

proof fn lemma_line_end(src: Seq<char>, i: int)
    requires
        0 <= i <= src.len(),
    ensures
        i <= line_end(src, i) <= src.len(),
    decreases src.len() - i,
{
    if i < src.len() && src[i] != '\n' {
        lemma_line_end(src, i + 1);
    }
}

proof fn lemma_quote_end(src: Seq<char>, i: int)
    requires
        0 <= i <= src.len(),
    ensures
        i <= quote_end(src, i) <= src.len(),
        quote_end(src, i) < src.len() ==> src[quote_end(src, i)] == '"',
    decreases src.len() - i,
{
    if i < src.len() && src[i] != '"' {
        lemma_quote_end(src, i + 1);
    }
}

proof fn lemma_newlines_bound(s: Seq<char>)
    ensures
        count_newlines(s) <= s.len(),
    decreases s.len(),
{
    if s.len() > 0 {
        lemma_newlines_bound(s.drop_last());
    }
}

/// Every scan step moves forward and stays within the source.
pub proof fn lemma_step_advances(src: Seq<char>, pos: int, line: nat)
    requires
        0 <= pos < src.len(),
    ensures
        pos < scan_step(src, pos, line).next <= src.len(),
        scan_step(src, pos, line).line <= line + (scan_step(src, pos, line).next - pos),
{
    let c = src[pos];
    if c == '/' && char_at(src, pos + 1) == '/' {
        lemma_line_end(src, pos + 2);
    } else if c == '"' {
        lemma_quote_end(src, pos + 1);
        let q = quote_end(src, pos + 1);
        lemma_newlines_bound(src.subrange(pos + 1, q));
    } else if is_digit_char(c) {
        lemma_digits_end(src, pos + 1);
        let e = digits_end(src, pos + 1);
        if char_at(src, e) == '.' && is_digit_char(char_at(src, e + 1)) {
            lemma_digits_end(src, e + 1);
        }
    } else if is_alpha_char(c) {
        lemma_word_end(src, pos + 1);
    }
}

// ---------------------------------------------------------------------------
// The scanner.
// ---------------------------------------------------------------------------

/// A single-pass scanner over a source text.
#[derive(Debug)]
pub struct Lexer {
    source: Vec<char>,
    tokens: Vec<Token>,
    errors: Vec<LexError>,
    current: usize,
    start: usize,
    line: usize,
    had_error: bool,
}

impl Lexer {
    /// The characters being scanned.
    pub closed spec fn source_view(&self) -> Seq<char> {
        self.source@
    }

    /// Where the next scan starts.
    pub closed spec fn position(&self) -> int {
        self.current as int
    }

    /// The line counter.
    pub closed spec fn line_view(&self) -> nat {
        self.line as nat
    }

    /// The tokens found so far.
    pub closed spec fn tokens_found(&self) -> Seq<TokenView> {
        tokens_view(self.tokens@)
    }

    /// The errors found so far and not yet handed over.
    pub closed spec fn errors_found(&self) -> Seq<LexErrorView> {
        errors_view(self.errors@)
    }

    /// Whether any error has been found, handed over or not.
    pub closed spec fn error_seen(&self) -> bool {
        self.had_error || self.errors@.len() > 0
    }

    pub closed spec fn inv(&self) -> bool {
        &&& self.source@.len() < usize::MAX
        &&& self.start <= self.current <= self.source@.len()
        &&& 1 <= self.line <= self.current + 1
    }

    /// After one scan step that began at `self.start` with the line counter
    /// at `line0`, with `toks0` and `errs0` found before it.
    closed spec fn stepped(&self, toks0: Seq<TokenView>, errs0: Seq<LexErrorView>, line0: nat) -> bool {
        let st = scan_step(self.source@, self.start as int, line0);
        &&& self.current == st.next
        &&& self.line == st.line
        &&& tokens_view(self.tokens@) == toks0 + opt_seq(st.token)
        &&& errors_view(self.errors@) == errs0 + opt_seq(st.error)
    }

    /// A scanner at the start of `source`.
    pub fn new(source: &str) -> (r: Self)
        requires
            source@.len() < usize::MAX,
        ensures
            r.inv(),
            r.source_view() == source@,
            r.position() == 0,
            r.line_view() == 1,
            r.tokens_found() == Seq::<TokenView>::empty(),
            r.errors_found() == Seq::<LexErrorView>::empty(),
            !r.error_seen(),
    {
        let r = Self {
            source: chars_of(source),
            tokens: Vec::new(),
            errors: Vec::new(),
            current: 0,
            start: 0,
            line: 1,
            had_error: false,
        };
        assert(tokens_view(r.tokens@) =~= Seq::<TokenView>::empty());
        assert(errors_view(r.errors@) =~= Seq::<LexErrorView>::empty());
        r
    }

    /// Scans the rest of the source and hands over everything found: the
    /// tokens, ending with one end-of-input token, and the errors.
    pub fn scan_tokens(&mut self) -> (r: LexResult)
        requires
            old(self).inv(),
        ensures
            tokens_view(r.tokens@) == old(self).tokens_found() + scan_from(
                old(self).source_view(),
                old(self).position(),
                old(self).line_view(),
            ).0,
            errors_view(r.errors@) == old(self).errors_found() + scan_from(
                old(self).source_view(),
                old(self).position(),
                old(self).line_view(),
            ).1,
            final(self).inv(),
            final(self).source_view() == old(self).source_view(),
            final(self).tokens_found() == Seq::<TokenView>::empty(),
            final(self).errors_found() == Seq::<LexErrorView>::empty(),
            final(self).error_seen() == (old(self).error_seen() || scan_from(
                old(self).source_view(),
                old(self).position(),
                old(self).line_view(),
            ).1.len() > 0),
    {
        let ghost src = self.source@;
        let ghost all = scan_from(src, self.current as int, self.line as nat);
        let ghost toks0 = tokens_view(self.tokens@);
        let ghost errs0 = errors_view(self.errors@);
        while !self.is_at_end()
            invariant
                self.inv(),
                self.had_error == old(self).had_error,
                self.source@ == src,
                toks0 + all.0 == tokens_view(self.tokens@) + scan_from(
                    src,
                    self.current as int,
                    self.line as nat,
                ).0,
                errs0 + all.1 == errors_view(self.errors@) + scan_from(
                    src,
                    self.current as int,
                    self.line as nat,
                ).1,
            decreases src.len() - self.current,
        {
            self.start = self.current;
            let ghost pos = self.current as int;
            let ghost line0 = self.line as nat;
            let ghost t0 = tokens_view(self.tokens@);
            let ghost e0 = errors_view(self.errors@);
            self.scan_token();
            proof {
                lemma_step_advances(src, pos, line0);
                let st = scan_step(src, pos, line0);
                assert(scan_from(src, pos, line0).0 == opt_seq(st.token) + scan_from(
                    src,
                    st.next,
                    st.line,
                ).0);
                assert(t0 + opt_seq(st.token) + scan_from(src, st.next, st.line).0 =~= t0 + (
                opt_seq(st.token) + scan_from(src, st.next, st.line).0));
                assert(e0 + opt_seq(st.error) + scan_from(src, st.next, st.line).1 =~= e0 + (
                opt_seq(st.error) + scan_from(src, st.next, st.line).1));
            }
        }
        let ghost t1 = tokens_view(self.tokens@);
        self.eof_token();
        assert(tokens_view(self.tokens@) =~= t1 + scan_from(
            src,
            self.current as int,
            self.line as nat,
        ).0);
        assert(errors_view(self.errors@) =~= errors_view(self.errors@) + scan_from(
            src,
            self.current as int,
            self.line as nat,
        ).1);
        self.had_error = self.had_error || self.errors.len() > 0;
        let mut tokens: Vec<Token> = Vec::new();
        let mut errors: Vec<LexError> = Vec::new();
        std::mem::swap(&mut tokens, &mut self.tokens);
        std::mem::swap(&mut errors, &mut self.errors);
        assert(tokens_view(self.tokens@) =~= Seq::<TokenView>::empty());
        assert(errors_view(self.errors@) =~= Seq::<LexErrorView>::empty());
        LexResult { tokens, errors }
    }

    /// Whether the scanner has found any error so far.
    pub fn had_error(&self) -> (r: bool)
        ensures
            r == self.error_seen(),
    {
        self.had_error || self.errors.len() > 0
    }

    fn scan_token(&mut self)
        requires
            old(self).inv(),
            old(self).start == old(self).current,
            old(self).current < old(self).source@.len(),
        ensures
            final(self).inv(),
            final(self).had_error == old(self).had_error,
            final(self).source@ == old(self).source@,
            final(self).start == old(self).start,
            final(self).stepped(
                tokens_view(old(self).tokens@),
                errors_view(old(self).errors@),
                old(self).line as nat,
            ),
    {
        let ghost t0 = tokens_view(self.tokens@);
        let ghost e0 = errors_view(self.errors@);
        let c = self.advance();
        if c == '(' {
            self.add_token(TokenType::LEFT_PAREN, None);
        } else if c == ')' {
            self.add_token(TokenType::RIGHT_PAREN, None);
        } else if c == '{' {
            self.add_token(TokenType::LEFT_BRACE, None);
        } else if c == '}' {
            self.add_token(TokenType::RIGHT_BRACE, None);
        } else if c == ',' {
            self.add_token(TokenType::COMMA, None);
        } else if c == '.' {
            self.add_token(TokenType::DOT, None);
        } else if c == ';' {
            self.add_token(TokenType::SEMICOLON, None);
        } else if c == '-' {
            self.add_token(TokenType::MINUS, None);
        } else if c == '+' {
            self.add_token(TokenType::PLUS, None);
        } else if c == '*' {
            self.add_token(TokenType::STAR, None);
        } else if c == '/' {
            self.scan_slash();
        } else if c == '>' {
            self.scan_comparison(TokenType::GREATER, TokenType::GREATER_EQUAL);
        } else if c == '<' {
            self.scan_comparison(TokenType::LESS, TokenType::LESS_EQUAL);
        } else if c == '=' {
            self.scan_comparison(TokenType::EQUAL, TokenType::EQUAL_EQUAL);
        } else if c == '!' {
            self.scan_comparison(TokenType::BANG, TokenType::BANG_EQUAL);
        } else if c == '"' {
            self.string();
        } else if is_digit(c) {
            self.number();
        } else if self.is_alpha(c) {
            self.identifier();
        } else if c == ' ' || c == '\r' || c == '\t' {
            assert(tokens_view(self.tokens@) =~= t0 + Seq::<TokenView>::empty());
            assert(errors_view(self.errors@) =~= e0 + Seq::<LexErrorView>::empty());
        } else if c == '\n' {
            self.line = self.line + 1;
            assert(tokens_view(self.tokens@) =~= t0 + Seq::<TokenView>::empty());
            assert(errors_view(self.errors@) =~= e0 + Seq::<LexErrorView>::empty());
        } else {
            let mut message = String::from_str("Unexpected character: ");
            push_char(&mut message, c);
            self.error(self.line, message);
            assert(tokens_view(self.tokens@) =~= t0 + Seq::<TokenView>::empty());
        }
    }

    fn scan_slash(&mut self)
        requires
            old(self).inv(),
            old(self).current == old(self).start + 1,
            old(self).source@[old(self).start as int] == '/',
        ensures
            final(self).inv(),
            final(self).had_error == old(self).had_error,
            final(self).source@ == old(self).source@,
            final(self).start == old(self).start,
            final(self).stepped(
                tokens_view(old(self).tokens@),
                errors_view(old(self).errors@),
                old(self).line as nat,
            ),
    {
        let ghost t0 = tokens_view(self.tokens@);
        let ghost e0 = errors_view(self.errors@);
        if self.match_char('/') {
            while self.peek() != '\n' && !self.is_at_end()
                invariant
                    self.inv(),
                    self.had_error == old(self).had_error,
                    self.source@ == old(self).source@,
                    self.start == old(self).start,
                    self.line == old(self).line,
                    self.tokens == old(self).tokens,
                    self.errors == old(self).errors,
                    self.start + 2 <= self.current,
                    line_end(self.source@, self.start + 2) == line_end(
                        self.source@,
                        self.current as int,
                    ),
                decreases self.source@.len() - self.current,
            {
                self.advance();
            }
            assert(tokens_view(self.tokens@) =~= t0 + Seq::<TokenView>::empty());
            assert(errors_view(self.errors@) =~= e0 + Seq::<LexErrorView>::empty());
        } else {
            self.add_token(TokenType::SLASH, None);
        }
    }

    fn scan_comparison(&mut self, single: TokenType, double: TokenType)
        requires
            old(self).inv(),
            old(self).current == old(self).start + 1,
            comparison_kinds(old(self).source@[old(self).start as int]) == Some((single, double)),
        ensures
            final(self).inv(),
            final(self).had_error == old(self).had_error,
            final(self).source@ == old(self).source@,
            final(self).start == old(self).start,
            final(self).stepped(
                tokens_view(old(self).tokens@),
                errors_view(old(self).errors@),
                old(self).line as nat,
            ),
    {
        let token_type = if self.match_char('=') {
            double
        } else {
            single
        };
        self.add_token(token_type, None);
    }

    fn string(&mut self)
        requires
            old(self).inv(),
            old(self).current == old(self).start + 1,
            old(self).source@[old(self).start as int] == '"',
            old(self).line <= old(self).start + 1,
        ensures
            final(self).inv(),
            final(self).had_error == old(self).had_error,
            final(self).source@ == old(self).source@,
            final(self).start == old(self).start,
            final(self).stepped(
                tokens_view(old(self).tokens@),
                errors_view(old(self).errors@),
                old(self).line as nat,
            ),
    {
        let ghost src = self.source@;
        let ghost pos = self.start as int;
        let ghost t0 = tokens_view(self.tokens@);
        let ghost e0 = errors_view(self.errors@);
        proof {
            lemma_quote_end(src, pos + 1);
        }
        while self.peek() != '"' && !self.is_at_end()
            invariant
                self.inv(),
                self.had_error == old(self).had_error,
                self.source@ == src,
                self.start == pos,
                pos + 1 <= self.current <= quote_end(src, pos + 1),
                quote_end(src, pos + 1) <= src.len(),
                quote_end(src, pos + 1) == quote_end(src, self.current as int),
                old(self).line <= pos + 1,
                self.line == old(self).line + count_newlines(
                    src.subrange(pos + 1, self.current as int),
                ),
                self.tokens == old(self).tokens,
                self.errors == old(self).errors,
            decreases src.len() - self.current,
        {
            proof {
                lemma_newlines_bound(src.subrange(pos + 1, self.current as int));
            }
            if self.peek() == '\n' {
                self.line = self.line + 1;
            }
            let ghost cur = self.current as int;
            self.advance();
            proof {
                lemma_quote_end(src, cur + 1);
            }
            assert(src.subrange(pos + 1, cur + 1).drop_last() =~= src.subrange(pos + 1, cur));
        }
        proof {
            lemma_newlines_bound(src.subrange(pos + 1, self.current as int));
        }
        if self.is_at_end() {
            self.error(self.line, String::from_str("Unterminated string."));
            assert(tokens_view(self.tokens@) =~= t0 + Seq::<TokenView>::empty());
            return ;
        }
        self.advance();
        let literal = string_from(&self.source, self.start + 1, self.current - 1);
        self.add_token(TokenType::STRING, Some(literal));
    }

    fn consume_digits(&mut self)
        requires
            old(self).inv(),
        ensures
            final(self).inv(),
            final(self).had_error == old(self).had_error,
            final(self).current == digits_end(old(self).source@, old(self).current as int),
            final(self).source@ == old(self).source@,
            final(self).start == old(self).start,
            final(self).line == old(self).line,
            final(self).tokens == old(self).tokens,
            final(self).errors == old(self).errors,
    {
        while is_digit(self.peek())
            invariant
                self.inv(),
                self.had_error == old(self).had_error,
                self.source@ == old(self).source@,
                self.start == old(self).start,
                self.line == old(self).line,
                self.tokens == old(self).tokens,
                self.errors == old(self).errors,
                old(self).current <= self.current,
                digits_end(self.source@, old(self).current as int) == digits_end(
                    self.source@,
                    self.current as int,
                ),
            decreases self.source@.len() - self.current,
        {
            self.advance();
        }
    }

    fn number(&mut self)
        requires
            old(self).inv(),
            old(self).current == old(self).start + 1,
            is_digit_char(old(self).source@[old(self).start as int]),
        ensures
            final(self).inv(),
            final(self).had_error == old(self).had_error,
            final(self).source@ == old(self).source@,
            final(self).start == old(self).start,
            final(self).stepped(
                tokens_view(old(self).tokens@),
                errors_view(old(self).errors@),
                old(self).line as nat,
            ),
    {
        let ghost src = self.source@;
        proof {
            lemma_digits_end(src, self.current as int);
        }
        self.consume_digits();
        let int_end = self.current;
        if self.peek() == '.' && is_digit(self.peek_next()) {
            self.advance();
            proof {
                lemma_digits_end(src, self.current + 1);
            }
            self.consume_digits();
        }
        let literal = self.number_literal(int_end);
        self.add_token(TokenType::NUMBER, Some(literal));
    }

    /// The decoded literal of the number lexeme that ends here, whose
    /// integer digits end at `int_end`.
    fn number_literal(&self, int_end: usize) -> (r: String)
        requires
            self.inv(),
            self.start < int_end <= self.current,
            int_end == digits_end(self.source@, self.start + 1),
            self.current > int_end ==> self.current >= int_end + 2 && self.source@[int_end as int]
                == '.',
        ensures
            r@ == number_literal(self.source@, self.start as int, self.current as int),
    {
        let ghost src = self.source@;
        let mut i: usize = self.start;
        while i + 1 < int_end && self.source[i] == '0'
            invariant
                self.start <= i < int_end,
                int_end <= src.len(),
                src == self.source@,
                strip_leading_zeros(src.subrange(self.start as int, int_end as int))
                    == strip_leading_zeros(src.subrange(i as int, int_end as int)),
            decreases int_end - i,
        {
            assert(src.subrange(i as int, int_end as int).drop_first() =~= src.subrange(
                i + 1,
                int_end as int,
            ));
            i = i + 1;
        }
        let mut r = string_from(&self.source, i, int_end);
        push_char(&mut r, '.');
        let frac_start: usize = if self.current > int_end {
            int_end + 1
        } else {
            self.current
        };
        let mut j: usize = self.current;
        while j > frac_start && self.source[j - 1] == '0'
            invariant
                frac_start <= j <= self.current,
                self.current <= src.len(),
                src == self.source@,
                strip_trailing_zeros(src.subrange(frac_start as int, self.current as int))
                    == strip_trailing_zeros(src.subrange(frac_start as int, j as int)),
            decreases j,
        {
            assert(src.subrange(frac_start as int, j as int).drop_last() =~= src.subrange(
                frac_start as int,
                j - 1,
            ));
            j = j - 1;
        }
        let ghost f = src.subrange(frac_start as int, self.current as int);
        assert(strip_leading_zeros(src.subrange(i as int, int_end as int)) == src.subrange(
            i as int,
            int_end as int,
        ));
        assert(strip_trailing_zeros(src.subrange(frac_start as int, j as int)) == src.subrange(
            frac_start as int,
            j as int,
        ));
        if j > frac_start {
            append_range(&mut r, &self.source, frac_start, j);
        } else {
            push_char(&mut r, '0');
        }
        assert(self.current <= int_end ==> f =~= Seq::<char>::empty());
        assert(r@ =~= number_literal(src, self.start as int, self.current as int));
        r
    }

    fn identifier(&mut self)
        requires
            old(self).inv(),
            old(self).current == old(self).start + 1,
            starts_word(old(self).source@[old(self).start as int]),
        ensures
            final(self).inv(),
            final(self).had_error == old(self).had_error,
            final(self).source@ == old(self).source@,
            final(self).start == old(self).start,
            final(self).stepped(
                tokens_view(old(self).tokens@),
                errors_view(old(self).errors@),
                old(self).line as nat,
            ),
    {
        let ghost src = self.source@;
        while !self.is_at_end() && self.is_alpha_numeric(self.peek())
            invariant
                self.inv(),
                self.had_error == old(self).had_error,
                self.source@ == src,
                self.start == old(self).start,
                self.line == old(self).line,
                self.tokens == old(self).tokens,
                self.errors == old(self).errors,
                old(self).current <= self.current,
                word_end(src, old(self).current as int) == word_end(src, self.current as int),
            decreases src.len() - self.current,
        {
            self.advance();
        }
        let word = chars_from(&self.source, self.start, self.current);
        let token_type = keyword_kind(word.as_slice());
        self.add_token(token_type, None);
    }

    fn is_alpha(&self, c: char) -> (r: bool)
        ensures
            r == is_alpha_char(c),
    {
        if c <= '\x7f' {
            ('a' <= c && c <= 'z') || ('A' <= c && c <= 'Z') || c == '_'
        } else {
            is_alphabetic(c)
        }
    }

    fn is_alpha_numeric(&self, c: char) -> (r: bool)
        ensures
            r == is_word_char(c),
    {
        if c <= '\x7f' {
            ('a' <= c && c <= 'z') || ('A' <= c && c <= 'Z') || is_digit(c) || c == '_'
        } else {
            is_alphanumeric(c)
        }
    }

    fn add_token(&mut self, token_type: TokenType, literal: Option<String>)
        requires
            old(self).inv(),
        ensures
            final(self).inv(),
            final(self).had_error == old(self).had_error,
            final(self).source@ == old(self).source@,
            final(self).start == old(self).start,
            final(self).current == old(self).current,
            final(self).line == old(self).line,
            final(self).errors == old(self).errors,
            tokens_view(final(self).tokens@) == tokens_view(old(self).tokens@) + seq![
                TokenView {
                    kind: token_type,
                    lexeme: old(self).source@.subrange(
                        old(self).start as int,
                        old(self).current as int,
                    ),
                    literal: crate::token::literal_view(literal),
                    line: old(self).line as nat,
                },
            ],
    {
        let lexeme = string_from(&self.source, self.start, self.current);
        let ghost t0 = self.tokens@;
        self.tokens.push(Token { token_type, lexeme, literal, line: self.line });
        assert(tokens_view(self.tokens@) =~= tokens_view(t0) + seq![self.tokens@.last()@]);
    }

    fn eof_token(&mut self)
        requires
            old(self).inv(),
        ensures
            final(self).inv(),
            final(self).had_error == old(self).had_error,
            final(self).source@ == old(self).source@,
            final(self).current == old(self).current,
            final(self).line == old(self).line,
            final(self).errors == old(self).errors,
            tokens_view(final(self).tokens@) == tokens_view(old(self).tokens@).push(
                eof_view(old(self).line as nat),
            ),
    {
        let ghost t0 = self.tokens@;
        self.tokens.push(
            Token { token_type: TokenType::EOF, lexeme: String::new(), literal: None, line: self.line },
        );
        assert(tokens_view(self.tokens@) =~= tokens_view(t0).push(self.tokens@.last()@));
    }

    fn advance(&mut self) -> (c: char)
        requires
            old(self).inv(),
            old(self).current < old(self).source@.len(),
        ensures
            c == old(self).source@[old(self).current as int],
            final(self).current == old(self).current + 1,
            final(self).source@ == old(self).source@,
            final(self).start == old(self).start,
            final(self).line == old(self).line,
            final(self).tokens == old(self).tokens,
            final(self).errors == old(self).errors,
            final(self).inv(),
            final(self).had_error == old(self).had_error,
    {
        let c = self.source[self.current];
        self.current = self.current + 1;
        c
    }

    fn match_char(&mut self, expected: char) -> (r: bool)
        requires
            old(self).inv(),
        ensures
            r == (char_at(old(self).source@, old(self).current as int) == expected
                && old(self).current < old(self).source@.len()),
            final(self).current == old(self).current + if r {
                1int
            } else {
                0int
            },
            final(self).source@ == old(self).source@,
            final(self).start == old(self).start,
            final(self).line == old(self).line,
            final(self).tokens == old(self).tokens,
            final(self).errors == old(self).errors,
            final(self).inv(),
            final(self).had_error == old(self).had_error,
    {
        if self.is_at_end() || self.source[self.current] != expected {
            return false;
        }
        self.current = self.current + 1;
        true
    }

    fn peek(&self) -> (c: char)
        requires
            self.inv(),
        ensures
            c == char_at(self.source@, self.current as int),
    {
        if self.is_at_end() {
            return '\0';
        }
        self.source[self.current]
    }

    fn peek_next(&self) -> (c: char)
        requires
            self.inv(),
        ensures
            c == char_at(self.source@, self.current + 1),
    {
        if self.current + 1 >= self.source.len() {
            return '\0';
        }
        self.source[self.current + 1]
    }

    fn is_at_end(&self) -> (r: bool)
        requires
            self.inv(),
        ensures
            r == (self.current >= self.source@.len()),
    {
        self.current >= self.source.len()
    }

    fn error(&mut self, line: usize, message: String)
        requires
            old(self).inv(),
        ensures
            final(self).inv(),
            final(self).had_error == old(self).had_error,
            final(self).source@ == old(self).source@,
            final(self).start == old(self).start,
            final(self).current == old(self).current,
            final(self).line == old(self).line,
            final(self).tokens == old(self).tokens,
            errors_view(final(self).errors@) == errors_view(old(self).errors@) + seq![
                LexErrorView { line: line as nat, message: message@ },
            ],
    {
        let ghost e0 = self.errors@;
        self.errors.push(LexError { line, message });
        assert(errors_view(self.errors@) =~= errors_view(e0) + seq![self.errors@.last()@]);
    }
}

/// Scans a whole source text.
pub fn lex(source: &str) -> (r: LexResult)
    requires
        source@.len() < usize::MAX,
    ensures
        tokens_view(r.tokens@) == lex_spec(source@).0,
        errors_view(r.errors@) == lex_spec(source@).1,
{
    let mut lexer = Lexer::new(source);
    let r = lexer.scan_tokens();
    assert(tokens_view(r.tokens@) =~= lex_spec(source@).0);
    assert(errors_view(r.errors@) =~= lex_spec(source@).1);
    r
}

} // verus!
