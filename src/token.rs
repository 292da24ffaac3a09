use vstd::prelude::*;
use vstd::string::StringExecFns;

verus! {

/// The lexical categories of the language.
#[allow(non_camel_case_types)]
#[derive(Debug, Clone, Copy, PartialEq, Eq, Structural)]
pub enum TokenType {
    LEFT_PAREN,
    RIGHT_PAREN,
    LEFT_BRACE,
    RIGHT_BRACE,
    COMMA,
    DOT,
    SEMICOLON,
    MINUS,
    PLUS,
    SLASH,
    STAR,
    GREATER,
    LESS,
    EQUAL,
    BANG,
    GREATER_EQUAL,
    LESS_EQUAL,
    EQUAL_EQUAL,
    BANG_EQUAL,
    STRING,
    NUMBER,
    IDENTIFIER,
    CLASS,
    VAR,
    SUPER,
    PRINT,
    RETURN,
    THIS,
    AND,
    OR,
    IF,
    ELSE,
    FALSE,
    TRUE,
    WHILE,
    FOR,
    FUN,
    NIL,
    EOF,
}

/// One token: its kind, the source text it was read from, the decoded
/// literal of a string or number, and the line it ends on.
#[derive(Debug, Clone)]
pub struct Token {
    pub token_type: TokenType,
    pub lexeme: String,
    pub literal: Option<String>,
    pub line: usize,
}

impl Token {
    /// An equal copy of this token.
    pub fn cloned(&self) -> (r: Token)
        ensures
            r@ == self@,
    {
        let literal = match &self.literal {
            Some(s) => Some(s.clone()),
            None => None,
        };
        Token { token_type: self.token_type, lexeme: self.lexeme.clone(), literal, line: self.line }
    }

    /// The token's listing: `KIND lexeme literal`, with `null` for no literal.
    pub fn to_string(&self) -> (r: String)
        ensures
            r@ == token_text(self@),
    {
        let mut s = String::from_str(kind_name(self.token_type));
        s.append(" ");
        s.append(self.lexeme.as_str());
        s.append(" ");
        match &self.literal {
            Some(l) => s.append(l.as_str()),
            None => s.append("null"),
        }
        s
    }
}

/// The mathematical content of a token.
pub struct TokenView {
    pub kind: TokenType,
    pub lexeme: Seq<char>,
    pub literal: Option<Seq<char>>,
    pub line: nat,
}

pub open spec fn literal_view(l: Option<String>) -> Option<Seq<char>> {
    match l {
        Some(s) => Some(s@),
        None => None,
    }
}

impl View for Token {
    type V = TokenView;

    open spec fn view(&self) -> TokenView {
        TokenView {
            kind: self.token_type,
            lexeme: self.lexeme@,
            literal: literal_view(self.literal),
            line: self.line as nat,
        }
    }
}

/// The name of a token kind, as the token listing shows it.
pub open spec fn kind_text(k: TokenType) -> Seq<char> {
    match k {
        TokenType::LEFT_PAREN => "LEFT_PAREN"@,
        TokenType::RIGHT_PAREN => "RIGHT_PAREN"@,
        TokenType::LEFT_BRACE => "LEFT_BRACE"@,
        TokenType::RIGHT_BRACE => "RIGHT_BRACE"@,
        TokenType::COMMA => "COMMA"@,
        TokenType::DOT => "DOT"@,
        TokenType::SEMICOLON => "SEMICOLON"@,
        TokenType::MINUS => "MINUS"@,
        TokenType::PLUS => "PLUS"@,
        TokenType::SLASH => "SLASH"@,
        TokenType::STAR => "STAR"@,
        TokenType::GREATER => "GREATER"@,
        TokenType::LESS => "LESS"@,
        TokenType::EQUAL => "EQUAL"@,
        TokenType::BANG => "BANG"@,
        TokenType::GREATER_EQUAL => "GREATER_EQUAL"@,
        TokenType::LESS_EQUAL => "LESS_EQUAL"@,
        TokenType::EQUAL_EQUAL => "EQUAL_EQUAL"@,
        TokenType::BANG_EQUAL => "BANG_EQUAL"@,
        TokenType::STRING => "STRING"@,
        TokenType::NUMBER => "NUMBER"@,
        TokenType::IDENTIFIER => "IDENTIFIER"@,
        TokenType::CLASS => "CLASS"@,
        TokenType::VAR => "VAR"@,
        TokenType::SUPER => "SUPER"@,
        TokenType::PRINT => "PRINT"@,
        TokenType::RETURN => "RETURN"@,
        TokenType::THIS => "THIS"@,
        TokenType::AND => "AND"@,
        TokenType::OR => "OR"@,
        TokenType::IF => "IF"@,
        TokenType::ELSE => "ELSE"@,
        TokenType::FALSE => "FALSE"@,
        TokenType::TRUE => "TRUE"@,
        TokenType::WHILE => "WHILE"@,
        TokenType::FOR => "FOR"@,
        TokenType::FUN => "FUN"@,
        TokenType::NIL => "NIL"@,
        TokenType::EOF => "EOF"@,
    }
}

/// The name of a token kind, as the token listing shows it.
pub fn kind_name(k: TokenType) -> (r: &'static str)
    ensures
        r@ == kind_text(k),
{
    match k {
        TokenType::LEFT_PAREN => "LEFT_PAREN",
        TokenType::RIGHT_PAREN => "RIGHT_PAREN",
        TokenType::LEFT_BRACE => "LEFT_BRACE",
        TokenType::RIGHT_BRACE => "RIGHT_BRACE",
        TokenType::COMMA => "COMMA",
        TokenType::DOT => "DOT",
        TokenType::SEMICOLON => "SEMICOLON",
        TokenType::MINUS => "MINUS",
        TokenType::PLUS => "PLUS",
        TokenType::SLASH => "SLASH",
        TokenType::STAR => "STAR",
        TokenType::GREATER => "GREATER",
        TokenType::LESS => "LESS",
        TokenType::EQUAL => "EQUAL",
        TokenType::BANG => "BANG",
        TokenType::GREATER_EQUAL => "GREATER_EQUAL",
        TokenType::LESS_EQUAL => "LESS_EQUAL",
        TokenType::EQUAL_EQUAL => "EQUAL_EQUAL",
        TokenType::BANG_EQUAL => "BANG_EQUAL",
        TokenType::STRING => "STRING",
        TokenType::NUMBER => "NUMBER",
        TokenType::IDENTIFIER => "IDENTIFIER",
        TokenType::CLASS => "CLASS",
        TokenType::VAR => "VAR",
        TokenType::SUPER => "SUPER",
        TokenType::PRINT => "PRINT",
        TokenType::RETURN => "RETURN",
        TokenType::THIS => "THIS",
        TokenType::AND => "AND",
        TokenType::OR => "OR",
        TokenType::IF => "IF",
        TokenType::ELSE => "ELSE",
        TokenType::FALSE => "FALSE",
        TokenType::TRUE => "TRUE",
        TokenType::WHILE => "WHILE",
        TokenType::FOR => "FOR",
        TokenType::FUN => "FUN",
        TokenType::NIL => "NIL",
        TokenType::EOF => "EOF",
    }
}

/// A token's listing: its kind, its text, and its literal or `null`.
pub open spec fn token_text(t: TokenView) -> Seq<char> {
    kind_text(t.kind) + " "@ + t.lexeme + " "@ + match t.literal {
        Some(l) => l,
        None => "null"@,
    }
}

/// The reserved word spelled by `s`, if any.
pub open spec fn keyword_of(s: Seq<char>) -> Option<TokenType> {
    if s == seq!['c', 'l', 'a', 's', 's'] {
        Some(TokenType::CLASS)
    } else if s == seq!['v', 'a', 'r'] {
        Some(TokenType::VAR)
    } else if s == seq!['s', 'u', 'p', 'e', 'r'] {
        Some(TokenType::SUPER)
    } else if s == seq!['p', 'r', 'i', 'n', 't'] {
        Some(TokenType::PRINT)
    } else if s == seq!['r', 'e', 't', 'u', 'r', 'n'] {
        Some(TokenType::RETURN)
    } else if s == seq!['t', 'h', 'i', 's'] {
        Some(TokenType::THIS)
    } else if s == seq!['a', 'n', 'd'] {
        Some(TokenType::AND)
    } else if s == seq!['o', 'r'] {
        Some(TokenType::OR)
    } else if s == seq!['i', 'f'] {
        Some(TokenType::IF)
    } else if s == seq!['e', 'l', 's', 'e'] {
        Some(TokenType::ELSE)
    } else if s == seq!['t', 'r', 'u', 'e'] {
        Some(TokenType::TRUE)
    } else if s == seq!['f', 'a', 'l', 's', 'e'] {
        Some(TokenType::FALSE)
    } else if s == seq!['w', 'h', 'i', 'l', 'e'] {
        Some(TokenType::WHILE)
    } else if s == seq!['f', 'o', 'r'] {
        Some(TokenType::FOR)
    } else if s == seq!['f', 'u', 'n'] {
        Some(TokenType::FUN)
    } else if s == seq!['n', 'i', 'l'] {
        Some(TokenType::NIL)
    } else {
        None
    }
}

/// The kind of a word: its reserved kind, or `IDENTIFIER`.
pub open spec fn word_kind(s: Seq<char>) -> TokenType {
    match keyword_of(s) {
        Some(k) => k,
        None => TokenType::IDENTIFIER,
    }
}

fn spells(s: &[char], w: &[char]) -> (r: bool)
    ensures
        r == (s@ == w@),
{
    if s.len() != w.len() {
        return false;
    }
    let mut i: usize = 0;
    while i < s.len()
        invariant
            s@.len() == w@.len(),
            i <= s@.len(),
            forall|j: int| 0 <= j < i ==> s@[j] == w@[j],
        decreases s@.len() - i,
    {
        if s[i] != w[i] {
            return false;
        }
        i = i + 1;
    }
    assert(s@ =~= w@);
    true
}

/// The kind of the word `s`: a reserved word's own kind, else `IDENTIFIER`.
pub fn keyword_kind(s: &[char]) -> (r: TokenType)
    ensures
        r == word_kind(s@),
{
    let class = ['c', 'l', 'a', 's', 's'];
    let var = ['v', 'a', 'r'];
    let sup = ['s', 'u', 'p', 'e', 'r'];
    let print = ['p', 'r', 'i', 'n', 't'];
    let ret = ['r', 'e', 't', 'u', 'r', 'n'];
    let this = ['t', 'h', 'i', 's'];
    let and = ['a', 'n', 'd'];
    let or = ['o', 'r'];
    let iff = ['i', 'f'];
    let els = ['e', 'l', 's', 'e'];
    let tru = ['t', 'r', 'u', 'e'];
    let fals = ['f', 'a', 'l', 's', 'e'];
    let whil = ['w', 'h', 'i', 'l', 'e'];
    let fo = ['f', 'o', 'r'];
    let fun = ['f', 'u', 'n'];
    let nil = ['n', 'i', 'l'];
    assert(class@ =~= seq!['c', 'l', 'a', 's', 's']);
    assert(var@ =~= seq!['v', 'a', 'r']);
    assert(sup@ =~= seq!['s', 'u', 'p', 'e', 'r']);
    assert(print@ =~= seq!['p', 'r', 'i', 'n', 't']);
    assert(ret@ =~= seq!['r', 'e', 't', 'u', 'r', 'n']);
    assert(this@ =~= seq!['t', 'h', 'i', 's']);
    assert(and@ =~= seq!['a', 'n', 'd']);
    assert(or@ =~= seq!['o', 'r']);
    assert(iff@ =~= seq!['i', 'f']);
    assert(els@ =~= seq!['e', 'l', 's', 'e']);
    assert(tru@ =~= seq!['t', 'r', 'u', 'e']);
    assert(fals@ =~= seq!['f', 'a', 'l', 's', 'e']);
    assert(whil@ =~= seq!['w', 'h', 'i', 'l', 'e']);
    assert(fo@ =~= seq!['f', 'o', 'r']);
    assert(fun@ =~= seq!['f', 'u', 'n']);
    assert(nil@ =~= seq!['n', 'i', 'l']);
    if spells(s, &class) {
        TokenType::CLASS
    } else if spells(s, &var) {
        TokenType::VAR
    } else if spells(s, &sup) {
        TokenType::SUPER
    } else if spells(s, &print) {
        TokenType::PRINT
    } else if spells(s, &ret) {
        TokenType::RETURN
    } else if spells(s, &this) {
        TokenType::THIS
    } else if spells(s, &and) {
        TokenType::AND
    } else if spells(s, &or) {
        TokenType::OR
    } else if spells(s, &iff) {
        TokenType::IF
    } else if spells(s, &els) {
        TokenType::ELSE
    } else if spells(s, &tru) {
        TokenType::TRUE
    } else if spells(s, &fals) {
        TokenType::FALSE
    } else if spells(s, &whil) {
        TokenType::WHILE
    } else if spells(s, &fo) {
        TokenType::FOR
    } else if spells(s, &fun) {
        TokenType::FUN
    } else if spells(s, &nil) {
        TokenType::NIL
    } else {
        TokenType::IDENTIFIER
    }
}

} // verus!
