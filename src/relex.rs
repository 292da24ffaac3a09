use vstd::prelude::*;

use crate::lexer::{
    char_at, comparison_kinds, digits_end, is_alpha_char, is_word_char, lemma_step_advances,
    lex_spec, line_end, number_end, opt_seq, quote_end, LexErrorView, scan_from, scan_step, single_kind,
    word_end,
};
use crate::text::is_digit_char;
use crate::token::{TokenType, TokenView};

verus! {

broadcast use vstd::seq::group_seq_axioms;

/// The kinds of a token sequence.
pub open spec fn kinds(ts: Seq<TokenView>) -> Seq<TokenType> {
    ts.map_values(|t: TokenView| t.kind)
}

// --- Where the scanning helpers stop. ---

proof fn lemma_digits_end_props(s: Seq<char>, i: int)
    requires
        0 <= i <= s.len(),
    ensures
        i <= digits_end(s, i) <= s.len(),
        forall|j: int| i <= j < digits_end(s, i) ==> is_digit_char(#[trigger] s[j]),
        digits_end(s, i) < s.len() ==> !is_digit_char(s[digits_end(s, i)]),
    decreases s.len() - i,
{
    if i < s.len() && is_digit_char(s[i]) {
        lemma_digits_end_props(s, i + 1);
    }
}

proof fn lemma_digits_end_at(s: Seq<char>, i: int, k: int)
    requires
        0 <= i <= k <= s.len(),
        forall|j: int| i <= j < k ==> is_digit_char(#[trigger] s[j]),
        k < s.len() ==> !is_digit_char(s[k]),
    ensures
        digits_end(s, i) == k,
    decreases k - i,
{
    if i < k {
        lemma_digits_end_at(s, i + 1, k);
    }
}

proof fn lemma_word_end_props(s: Seq<char>, i: int)
    requires
        0 <= i <= s.len(),
    ensures
        i <= word_end(s, i) <= s.len(),
        forall|j: int| i <= j < word_end(s, i) ==> is_word_char(#[trigger] s[j]),
        word_end(s, i) < s.len() ==> !is_word_char(s[word_end(s, i)]),
    decreases s.len() - i,
{
    if i < s.len() && is_word_char(s[i]) {
        lemma_word_end_props(s, i + 1);
    }
}

proof fn lemma_word_end_at(s: Seq<char>, i: int, k: int)
    requires
        0 <= i <= k <= s.len(),
        forall|j: int| i <= j < k ==> is_word_char(#[trigger] s[j]),
        k < s.len() ==> !is_word_char(s[k]),
    ensures
        word_end(s, i) == k,
    decreases k - i,
{
    if i < k {
        lemma_word_end_at(s, i + 1, k);
    }
}

proof fn lemma_quote_end_props(s: Seq<char>, i: int)
    requires
        0 <= i <= s.len(),
    ensures
        i <= quote_end(s, i) <= s.len(),
        forall|j: int| i <= j < quote_end(s, i) ==> #[trigger] s[j] != '"',
        quote_end(s, i) < s.len() ==> s[quote_end(s, i)] == '"',
    decreases s.len() - i,
{
    if i < s.len() && s[i] != '"' {
        lemma_quote_end_props(s, i + 1);
    }
}

proof fn lemma_quote_end_at(s: Seq<char>, i: int, k: int)
    requires
        0 <= i <= k <= s.len(),
        forall|j: int| i <= j < k ==> #[trigger] s[j] != '"',
        k < s.len() ==> s[k] == '"',
    ensures
        quote_end(s, i) == k,
    decreases k - i,
{
    if i < k {
        lemma_quote_end_at(s, i + 1, k);
    }
}

proof fn lemma_line_end_props(s: Seq<char>, i: int)
    requires
        0 <= i <= s.len(),
    ensures
        i <= line_end(s, i) <= s.len(),
        forall|j: int| i <= j < line_end(s, i) ==> #[trigger] s[j] != '\n',
        line_end(s, i) < s.len() ==> s[line_end(s, i)] == '\n',
    decreases s.len() - i,
{
    if i < s.len() && s[i] != '\n' {
        lemma_line_end_props(s, i + 1);
    }
}

proof fn lemma_line_end_at(s: Seq<char>, i: int, k: int)
    requires
        0 <= i <= k <= s.len(),
        forall|j: int| i <= j < k ==> #[trigger] s[j] != '\n',
        k < s.len() ==> s[k] == '\n',
    ensures
        line_end(s, i) == k,
    decreases k - i,
{
    if i < k {
        lemma_line_end_at(s, i + 1, k);
    }
}

// --- Scanning is unaffected by text in front of the scanned part. ---

proof fn lemma_ends_shift(a: Seq<char>, b: Seq<char>, j: int)
    requires
        0 <= j <= b.len(),
    ensures
        digits_end(a + b, a.len() + j) == a.len() + digits_end(b, j),
        word_end(a + b, a.len() + j) == a.len() + word_end(b, j),
        quote_end(a + b, a.len() + j) == a.len() + quote_end(b, j),
        line_end(a + b, a.len() + j) == a.len() + line_end(b, j),
{
    let ab = a + b;
    let n = a.len() as int;
    assert forall|k: int| n <= k < ab.len() implies #[trigger] ab[k] == b[k - n] by {}
    lemma_digits_end_props(b, j);
    let e = digits_end(b, j);
    assert forall|k: int| n + j <= k < n + e implies is_digit_char(#[trigger] ab[k]) by {
        assert(ab[k] == b[k - n]);
    }
    if e < b.len() {
        assert(ab[n + e] == b[e]);
    }
    lemma_digits_end_at(ab, n + j, n + e);
    lemma_word_end_props(b, j);
    let w = word_end(b, j);
    assert forall|k: int| n + j <= k < n + w implies is_word_char(#[trigger] ab[k]) by {
        assert(ab[k] == b[k - n]);
    }
    if w < b.len() {
        assert(ab[n + w] == b[w]);
    }
    lemma_word_end_at(ab, n + j, n + w);
    lemma_quote_end_props(b, j);
    let q = quote_end(b, j);
    assert forall|k: int| n + j <= k < n + q implies #[trigger] ab[k] != '"' by {
        assert(ab[k] == b[k - n]);
    }
    if q < b.len() {
        assert(ab[n + q] == b[q]);
    }
    lemma_quote_end_at(ab, n + j, n + q);
    lemma_line_end_props(b, j);
    let l = line_end(b, j);
    assert forall|k: int| n + j <= k < n + l implies #[trigger] ab[k] != '\n' by {
        assert(ab[k] == b[k - n]);
    }
    if l < b.len() {
        assert(ab[n + l] == b[l]);
    }
    lemma_line_end_at(ab, n + j, n + l);
}

proof fn lemma_step_shift(a: Seq<char>, b: Seq<char>, i: int, line: nat)
    requires
        0 <= i < b.len(),
    ensures
        scan_step(a + b, a.len() + i, line).token == scan_step(b, i, line).token,
        scan_step(a + b, a.len() + i, line).error == scan_step(b, i, line).error,
        scan_step(a + b, a.len() + i, line).line == scan_step(b, i, line).line,
        scan_step(a + b, a.len() + i, line).next == a.len() + scan_step(b, i, line).next,
{
    let ab = a + b;
    let n = a.len() as int;
    let p = n + i;
    assert forall|k: int| n <= k < ab.len() implies #[trigger] ab[k] == b[k - n] by {}
    assert forall|k: int| 0 <= k implies #[trigger] char_at(ab, n + k) == char_at(b, k) by {
        if k < b.len() {
            assert(ab[n + k] == b[k]);
        }
    }
    assert(char_at(ab, p + 1) == char_at(b, i + 1));
    let c = b[i];
    assert(ab[p] == c);
    lemma_step_advances(b, i, line);
    if c == '/' && char_at(b, i + 1) == '/' {
        lemma_ends_shift(a, b, i + 2);
    } else if c == '"' {
        lemma_ends_shift(a, b, i + 1);
        let q = quote_end(b, i + 1);
        lemma_quote_end_props(b, i + 1);
        assert(ab.subrange(p + 1, n + q) =~= b.subrange(i + 1, q));
        if q < b.len() {
            assert(ab.subrange(p, n + q + 1) =~= b.subrange(i, q + 1));
        }
    } else if is_digit_char(c) {
        lemma_ends_shift(a, b, i + 1);
        lemma_digits_end_props(b, i + 1);
        let e1 = digits_end(b, i + 1);
        assert(char_at(ab, n + e1) == char_at(b, e1));
        assert(char_at(ab, n + e1 + 1) == char_at(b, e1 + 1));
        if char_at(b, e1) == '.' && is_digit_char(char_at(b, e1 + 1)) {
            lemma_ends_shift(a, b, e1 + 1);
        }
        let e = number_end(b, i + 1);
        assert(number_end(ab, p + 1) == n + e);
        assert(ab.subrange(p, n + e) =~= b.subrange(i, e));
        assert(ab.subrange(p, n + e1) =~= b.subrange(i, e1));
        if e > e1 {
            assert(ab.subrange(n + e1 + 1, n + e) =~= b.subrange(e1 + 1, e));
        }
    } else if is_alpha_char(c) {
        lemma_ends_shift(a, b, i + 1);
        let e = word_end(b, i + 1);
        assert(ab.subrange(p, n + e) =~= b.subrange(i, e));
    }
    if single_kind(c) is Some {
        assert(ab.subrange(p, p + 1) =~= b.subrange(i, i + 1));
    }
    if comparison_kinds(c) is Some {
        assert(ab.subrange(p, p + 1) =~= b.subrange(i, i + 1));
        if i + 2 <= b.len() {
            assert(ab.subrange(p, p + 2) =~= b.subrange(i, i + 2));
        }
    }
    if c == '/' {
        assert(ab.subrange(p, p + 1) =~= b.subrange(i, i + 1));
    }
}

proof fn lemma_scan_shift(a: Seq<char>, b: Seq<char>, i: int, line: nat)
    requires
        0 <= i <= b.len(),
    ensures
        scan_from(a + b, a.len() + i, line) == scan_from(b, i, line),
    decreases b.len() - i,
{
    if i < b.len() {
        lemma_step_shift(a, b, i, line);
        lemma_step_advances(b, i, line);
        let st = scan_step(b, i, line);
        lemma_scan_shift(a, b, st.next, st.line);
    }
}

// --- A lexeme scanned alone. ---

/// The token that a scan step gives, when its lexeme is scanned again with
/// the end of input or a space and any text after it, comes back with the
/// same kind and lexeme, and ends where the lexeme ends.
proof fn lemma_lexeme_alone(src: Seq<char>, pos: int, line: nat, w: Seq<char>, line2: nat)
    requires
        0 <= pos < src.len(),
        scan_step(src, pos, line).token is Some,
        w.len() == 0 || w[0] == ' ',
    ensures
        ({
            let t = scan_step(src, pos, line).token->0;
            let u = t.lexeme + w;
            let st = scan_step(u, 0, line2);
            &&& st.token is Some
            &&& st.error is None
            &&& st.token->0.kind == t.kind
            &&& st.token->0.lexeme == t.lexeme
            &&& st.next == t.lexeme.len()
            &&& st.next > 0
        }),
{
    let st0 = scan_step(src, pos, line);
    let t = st0.token->0;
    let l = t.lexeme;
    lemma_step_advances(src, pos, line);
    let next = st0.next;
    let c = src[pos];
    if c == '"' {
        lemma_quote_end_props(src, pos + 1);
    }
    assert(l == src.subrange(pos, next));
    let u = l + w;
    assert forall|k: int| 0 <= k < l.len() implies #[trigger] u[k] == src[pos + k] by {}
    assert(char_at(u, l.len() as int) == ' ' || char_at(u, l.len() as int) == '\0');
    assert(u[0] == c);
    if single_kind(c) is Some {
        assert(u.subrange(0, 1) =~= l);
    } else if c == '/' {
        assert(u.subrange(0, 1) =~= l);
    } else if comparison_kinds(c) is Some {
        if char_at(src, pos + 1) == '=' {
            assert(char_at(u, 1) == '=');
            assert(u.subrange(0, 2) =~= l);
        } else {
            assert(u.subrange(0, 1) =~= l);
        }
    } else if c == '"' {
        let q = quote_end(src, pos + 1);
        assert forall|j: int| 1 <= j < q - pos implies #[trigger] u[j] != '"' by {
            assert(u[j] == src[pos + j]);
        }
        assert(u[q - pos] == src[q]);
        lemma_quote_end_at(u, 1, q - pos);
        assert(u.subrange(0, q - pos + 1) =~= l);
    } else if is_digit_char(c) {
        lemma_digits_end_props(src, pos + 1);
        let e1 = digits_end(src, pos + 1);
        let e = number_end(src, pos + 1);
        if char_at(src, e1) == '.' && is_digit_char(char_at(src, e1 + 1)) {
            lemma_digits_end_props(src, e1 + 1);
        }
        assert(e1 <= e);
        assert forall|j: int| 1 <= j < e1 - pos implies is_digit_char(#[trigger] u[j]) by {
            assert(u[j] == src[pos + j]);
        }
        if e1 - pos < l.len() {
            assert(u[e1 - pos] == src[e1]);
        } else if e1 - pos < u.len() {
            assert(u[e1 - pos] == ' ');
        }
        lemma_digits_end_at(u, 1, e1 - pos);
        if char_at(src, e1) == '.' && is_digit_char(char_at(src, e1 + 1)) {
            lemma_digits_end_props(src, e1 + 1);
            assert(u[e1 - pos] == '.');
            assert(u[e1 - pos + 1] == src[e1 + 1]);
            assert forall|j: int| e1 - pos + 1 <= j < e - pos implies is_digit_char(#[trigger] u[j]) by {
                assert(u[j] == src[pos + j]);
            }
            if e - pos < u.len() {
                assert(u[e - pos] == ' ');
            }
            lemma_digits_end_at(u, e1 - pos + 1, e - pos);
        }
        assert(u.subrange(0, e - pos) =~= l);
    } else if is_alpha_char(c) {
        lemma_word_end_props(src, pos + 1);
        let e = word_end(src, pos + 1);
        assert forall|j: int| 1 <= j < e - pos implies is_word_char(#[trigger] u[j]) by {
            assert(u[j] == src[pos + j]);
        }
        if e - pos < u.len() {
            assert(u[e - pos] == ' ');
        }
        lemma_word_end_at(u, 1, e - pos);
        assert(u.subrange(0, e - pos) =~= l);
    }
}

/// The lexemes of a token sequence.
pub open spec fn lexemes(ts: Seq<TokenView>) -> Seq<Seq<char>> {
    ts.map_values(|t: TokenView| t.lexeme)
}

/// The lexemes of `ts` joined by single spaces.
pub open spec fn joined(ts: Seq<TokenView>) -> Seq<char>
    decreases ts.len(),
{
    if ts.len() == 0 {
        Seq::empty()
    } else if ts.len() == 1 {
        ts[0].lexeme
    } else {
        ts[0].lexeme + seq![' '] + joined(ts.drop_first())
    }
}

/// What a re-scan of the joined lexemes must give back: the same kinds and
/// lexemes as `ts`, and no error.
pub open spec fn rescans_to(r: (Seq<TokenView>, Seq<LexErrorView>), ts: Seq<TokenView>) -> bool {
    &&& kinds(r.0) == kinds(ts)
    &&& lexemes(r.0) == lexemes(ts)
    &&& r.1.len() == 0
}

/// The last lexeme alone scans to its token and the end-of-input token.
proof fn lemma_rescan_last(src: Seq<char>, pos: int, line: nat, line2: nat)
    requires
        0 <= pos < src.len(),
        scan_step(src, pos, line).token is Some,
    ensures
        ({
            let t = scan_step(src, pos, line).token->0;
            let r = scan_from(t.lexeme, 0, line2);
            &&& r.1.len() == 0
            &&& r.0.len() == 2
            &&& r.0[0].kind == t.kind
            &&& r.0[0].lexeme == t.lexeme
            &&& r.0[1].kind == TokenType::EOF
            &&& r.0[1].lexeme.len() == 0
        }),
{
    let t = scan_step(src, pos, line).token->0;
    let l = t.lexeme;
    let w = Seq::<char>::empty();
    assert(l + w =~= l);
    lemma_lexeme_alone(src, pos, line, w, line2);
    let s0 = scan_step(l, 0, line2);
    assert(scan_from(l, 0, line2).0 == opt_seq(s0.token) + scan_from(l, l.len() as int, s0.line).0);
    assert(scan_from(l, 0, line2).1 == opt_seq(s0.error) + scan_from(l, l.len() as int, s0.line).1);
    assert(opt_seq(s0.token) =~= seq![s0.token->0]);
    assert(opt_seq(s0.error) =~= Seq::<LexErrorView>::empty());
}

/// A lexeme followed by a space and more text scans to its token, then to
/// whatever the text after the space scans to.
proof fn lemma_rescan_first(src: Seq<char>, pos: int, line: nat, jr: Seq<char>, line2: nat)
    requires
        0 <= pos < src.len(),
        scan_step(src, pos, line).token is Some,
    ensures
        ({
            let t = scan_step(src, pos, line).token->0;
            let u = t.lexeme + seq![' '] + jr;
            let s0 = scan_step(u, 0, line2);
            let r = scan_from(u, 0, line2);
            let rr = scan_from(jr, 0, s0.line);
            &&& s0.token is Some
            &&& s0.token->0.kind == t.kind
            &&& s0.token->0.lexeme == t.lexeme
            &&& r.0 == seq![s0.token->0] + rr.0
            &&& r.1 == rr.1
        }),
{
    let t = scan_step(src, pos, line).token->0;
    let l = t.lexeme;
    let a = l + seq![' '];
    let u = a + jr;
    let w = seq![' '] + jr;
    assert(l + w =~= u);
    lemma_lexeme_alone(src, pos, line, w, line2);
    let s0 = scan_step(u, 0, line2);
    let l1 = s0.line;
    assert(u[l.len() as int] == ' ');
    let s1 = scan_step(u, l.len() as int, l1);
    assert(s1.token is None && s1.error is None && s1.next == l.len() + 1);
    lemma_scan_shift(a, jr, 0, l1);
    assert(scan_from(u, l.len() + 1int, l1) == scan_from(jr, 0, l1));
    assert(scan_from(u, l.len() as int, l1).0 == opt_seq(s1.token) + scan_from(u, l.len() + 1int, l1).0);
    assert(scan_from(u, l.len() as int, l1).1 == opt_seq(s1.error) + scan_from(u, l.len() + 1int, l1).1);
    assert(opt_seq(s1.token) =~= Seq::<TokenView>::empty());
    assert(opt_seq(s1.error) =~= Seq::<LexErrorView>::empty());
    assert(scan_from(u, 0, line2).0 == opt_seq(s0.token) + scan_from(u, l.len() as int, l1).0);
    assert(scan_from(u, 0, line2).1 == opt_seq(s0.error) + scan_from(u, l.len() as int, l1).1);
    assert(opt_seq(s0.token) =~= seq![s0.token->0]);
    assert(opt_seq(s0.error) =~= Seq::<LexErrorView>::empty());
    assert(scan_from(u, 0, line2).0 =~= seq![s0.token->0] + scan_from(jr, 0, l1).0);
    assert(scan_from(u, 0, line2).1 =~= scan_from(jr, 0, l1).1);
}

#[verifier::rlimit(60)]
proof fn lemma_relex_from(src: Seq<char>, pos: int, line: nat, line2: nat)
    requires
        0 <= pos <= src.len(),
    ensures
        scan_from(src, pos, line).0.len() > 0,
        scan_from(src, pos, line).0.last().kind == TokenType::EOF,
        scan_from(src, pos, line).0.last().lexeme.len() == 0,
        rescans_to(
            scan_from(joined(scan_from(src, pos, line).0.drop_last()), 0, line2),
            scan_from(src, pos, line).0,
        ),
    decreases src.len() - pos,
{
    let ts = scan_from(src, pos, line).0;
    if pos == src.len() {
        assert(ts.drop_last() =~= Seq::<TokenView>::empty());
        let r = scan_from(Seq::<char>::empty(), 0, line2);
        assert(kinds(r.0) =~= kinds(ts));
        assert(lexemes(r.0) =~= lexemes(ts));
    } else {
        lemma_step_advances(src, pos, line);
        let st = scan_step(src, pos, line);
        let rest = scan_from(src, st.next, st.line).0;
        assert(ts == opt_seq(st.token) + rest);
        if st.token is None {
            lemma_relex_from(src, st.next, st.line, line2);
            assert(ts =~= rest);
        } else {
            let t = st.token->0;
            assert(ts =~= seq![t] + rest);
            lemma_relex_from(src, st.next, st.line, line2);
            assert(ts.drop_last() =~= seq![t] + rest.drop_last());
            assert(ts.last() == rest.last());
            let l = t.lexeme;
            if rest.drop_last().len() == 0 {
                assert(joined(ts.drop_last()) == l);
                lemma_rescan_last(src, pos, line, line2);
                let r = scan_from(l, 0, line2);
                assert(rest.len() == 1);
                assert(r.0[1].lexeme =~= ts[1].lexeme);
                assert(kinds(r.0) =~= kinds(ts));
                assert(lexemes(r.0) =~= lexemes(ts));
            } else {
                let jr = joined(rest.drop_last());
                assert((seq![t] + rest.drop_last()).drop_first() =~= rest.drop_last());
                assert(joined(ts.drop_last()) == l + seq![' '] + jr);
                lemma_rescan_first(src, pos, line, jr, line2);
                let s0 = scan_step(l + seq![' '] + jr, 0, line2);
                lemma_relex_from(src, st.next, st.line, s0.line);
                let r = scan_from(l + seq![' '] + jr, 0, line2);
                let rr = scan_from(jr, 0, s0.line);
                assert(kinds(r.0) =~= seq![t.kind] + kinds(rr.0));
                assert(kinds(ts) =~= seq![t.kind] + kinds(rest));
                assert(lexemes(r.0) =~= seq![l] + lexemes(rr.0));
                assert(lexemes(ts) =~= seq![l] + lexemes(rest));
            }
        }
    }
}

/// Scanning again the lexemes of a scan, end-of-input token left out and
/// joined by single spaces, gives back the same kinds and lexemes and no
/// error: whitespace and comments aside, the lexemes carry everything that
/// decides the tokens.
pub proof fn lemma_relex_keeps_tokens(src: Seq<char>)
    ensures
        rescans_to(lex_spec(joined(lex_spec(src).0.drop_last())), lex_spec(src).0),
{
    lemma_relex_from(src, 0, 1, 1);
}

} // verus!
