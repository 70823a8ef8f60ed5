use vstd::prelude::*;
use vstd::string::StrSliceExecFns;

verus! {

/// A token of the source language.
#[derive(Debug, Clone, Copy, PartialEq)]
pub enum Token<'a> {
    Identifier(&'a str),
    Int(&'a str),
    If,
    Let,
    Else,
    Return,
    Func,
    True,
    False,
    Lte,
    Gte,
    Eq,
    Ne,
    And,
    Or,
    Lt,
    Gt,
    /// "!"
    Not,
    /// "-"
    Minus,
    /// "+"
    Plus,
    /// "*"
    Star,
    /// "/"
    Slash,
    /// "^"
    Caret,
    /// "%"
    Percent,
    /// "="
    Assign,
    Semicolon,
    Colon,
    Comma,
    Dot,
    OpenParenthese,
    CloseParenthese,
    /// "{"
    OpenBrace,
    /// "}"
    CloseBrace,
    /// "["
    OpenBracket,
    /// "]"
    CloseBracket,
    /// Unknown token
    Unknown,
}

/// Whether `c` is alphabetic in Unicode's sense.
pub uninterp spec fn alphabetic(c: char) -> bool;

/// Whether `c` is alphabetic or numeric in Unicode's sense.
pub uninterp spec fn alphanumeric(c: char) -> bool;

/// Whether `c` is white space in Unicode's sense.
pub uninterp spec fn white_space(c: char) -> bool;

/// Relies on `char::is_alphabetic`, a function of the character alone.
#[verifier::external_body]
fn is_alphabetic(c: char) -> (r: bool)
    ensures
        r == alphabetic(c),
{
    c.is_alphabetic()
}

/// Relies on `char::is_alphanumeric`, a function of the character alone.
#[verifier::external_body]
fn is_alphanumeric(c: char) -> (r: bool)
    ensures
        r == alphanumeric(c),
{
    c.is_alphanumeric()
}

/// Relies on `char::is_whitespace`, a function of the character alone.
#[verifier::external_body]
fn is_whitespace(c: char) -> (r: bool)
    ensures
        r == white_space(c),
{
    c.is_whitespace()
}

/// Whether two strings hold the same characters.
pub fn same_text(a: &str, b: &str) -> (r: bool)
    ensures
        r == (a@ == b@),
{
    let n = a.unicode_len();
    if n != b.unicode_len() {
        return false;
    }
    let mut i: usize = 0;
    while i < n
        invariant
            n == a@.len() == b@.len(),
            0 <= i <= n,
            forall|k: int| 0 <= k < i ==> a@[k] == b@[k],
        decreases n - i,
    {
        if a.get_char(i) != b.get_char(i) {
            return false;
        }
        i = i + 1;
    }
    assert(a@ =~= b@);
    true
}

/// A number for each kind of token.
pub open spec fn token_code(t: Token) -> int {
    match t {
        Token::Identifier(_) => 0,
        Token::Int(_) => 1,
        Token::If => 2,
        Token::Let => 3,
        Token::Else => 4,
        Token::Return => 5,
        Token::Func => 6,
        Token::True => 7,
        Token::False => 8,
        Token::Lte => 9,
        Token::Gte => 10,
        Token::Eq => 11,
        Token::Ne => 12,
        Token::And => 13,
        Token::Or => 14,
        Token::Lt => 15,
        Token::Gt => 16,
        Token::Not => 17,
        Token::Minus => 18,
        Token::Plus => 19,
        Token::Star => 20,
        Token::Slash => 21,
        Token::Caret => 22,
        Token::Percent => 23,
        Token::Assign => 24,
        Token::Semicolon => 25,
        Token::Colon => 26,
        Token::Comma => 27,
        Token::Dot => 28,
        Token::OpenParenthese => 29,
        Token::CloseParenthese => 30,
        Token::OpenBrace => 31,
        Token::CloseBrace => 32,
        Token::OpenBracket => 33,
        Token::CloseBracket => 34,
        Token::Unknown => 35,
    }
}

/// The kind of token a word is: a keyword, or else an identifier (0).
pub open spec fn word_code(w: Seq<char>) -> int {
    if w == "if"@ {
        2
    } else if w == "let"@ {
        3
    } else if w == "return"@ {
        5
    } else if w == "else"@ {
        4
    } else if w == "fn"@ {
        6
    } else if w == "true"@ {
        7
    } else if w == "false"@ {
        8
    } else {
        0
    }
}

/// The kind and length of the operator or punctuation token that starts with
/// `c`, followed by `next`.
pub open spec fn op_code(c: char, next: Option<char>) -> (int, int) {
    let eq = next == Some('=');
    if c == '=' {
        if eq { (11, 2) } else { (24, 1) }
    } else if c == '!' {
        if eq { (12, 2) } else { (17, 1) }
    } else if c == '<' {
        if eq { (9, 2) } else { (15, 1) }
    } else if c == '>' {
        if eq { (10, 2) } else { (16, 1) }
    } else if c == '/' {
        (21, 1)
    } else if c == '&' {
        if next == Some('&') { (13, 2) } else { (35, 1) }
    } else if c == '|' {
        if next == Some('|') { (14, 2) } else { (35, 1) }
    } else if c == ';' {
        (25, 1)
    } else if c == ':' {
        (26, 1)
    } else if c == ',' {
        (27, 1)
    } else if c == '.' {
        (28, 1)
    } else if c == '(' {
        (29, 1)
    } else if c == ')' {
        (30, 1)
    } else if c == '{' {
        (31, 1)
    } else if c == '}' {
        (32, 1)
    } else if c == '[' {
        (33, 1)
    } else if c == ']' {
        (34, 1)
    } else if c == '-' {
        (18, 1)
    } else if c == '+' {
        (19, 1)
    } else if c == '*' {
        (20, 1)
    } else if c == '^' {
        (22, 1)
    } else if c == '%' {
        (23, 1)
    } else {
        (35, 1)
    }
}

/// Whether the scan of class `keep` goes on over `c`, after an escaping
/// backslash or not, and after a decimal point or not.
pub open spec fn keeps(keep: CharClass, c: char, escaped: bool, decimal: bool) -> bool {
    match keep {
        CharClass::Word => alphanumeric(c) || c == '_',
        CharClass::Number => ('0' <= c && c <= '9') || (!decimal && c == '.'),
        CharClass::InString => c != '"' || escaped,
        CharClass::Line => c != '\n',
    }
}

/// Where a scan of class `keep` that starts at `p` stops.
pub open spec fn skip_end(cs: Seq<char>, p: int, keep: CharClass, escaped: bool, decimal: bool) -> int
    decreases cs.len() - p,
{
    if p < 0 || p >= cs.len() {
        p
    } else if keeps(keep, cs[p], escaped, decimal) {
        skip_end(cs, p + 1, keep, cs[p] == '\\', decimal || cs[p] == '.')
    } else {
        p
    }
}

pub proof fn lemma_skip_end_ge(cs: Seq<char>, p: int, keep: CharClass, escaped: bool, decimal: bool)
    ensures
        skip_end(cs, p, keep, escaped, decimal) >= p,
        0 <= p <= cs.len() ==> skip_end(cs, p, keep, escaped, decimal) <= cs.len(),
    decreases cs.len() - p,
{
    if 0 <= p < cs.len() && keeps(keep, cs[p], escaped, decimal) {
        lemma_skip_end_ge(cs, p + 1, keep, cs[p] == '\\', decimal || cs[p] == '.');
    }
}

/// What the tokenizer finds at a position: the end of the input, a word or
/// a number (from, to), a literal it does not support, or another token.
pub enum Lexeme {
    End,
    Word(int, int),
    Number(int, int),
    Unsupported,
    Other(int),
}

/// The token found from position `p` of `cs`, and the position after it.
/// White space and `//` comments before it are skipped.
pub open spec fn lex(cs: Seq<char>, p: int) -> (Lexeme, int)
    decreases cs.len() - p,
    via lex_decreases
{
    if p < 0 || p >= cs.len() {
        (Lexeme::End, p)
    } else {
        let c = cs[p];
        if alphabetic(c) || c == '_' {
            let e = skip_end(cs, p + 1, CharClass::Word, false, false);
            (Lexeme::Word(p, e), e)
        } else if '0' <= c && c <= '9' {
            let e = skip_end(cs, p + 1, CharClass::Number, false, false);
            if exists|m: int| p + 1 <= m < e && cs[m] == '.' {
                (Lexeme::Unsupported, e)
            } else {
                (Lexeme::Number(p, e), e)
            }
        } else if c == '"' {
            let e = skip_end(cs, p + 1, CharClass::InString, false, false);
            if e >= cs.len() {
                (Lexeme::End, e)
            } else {
                (Lexeme::Unsupported, e + 1)
            }
        } else if white_space(c) {
            lex(cs, p + 1)
        } else if c == '/' && p + 1 < cs.len() && cs[p + 1] == '/' {
            lex(cs, skip_end(cs, p + 1, CharClass::Line, false, false))
        } else {
            let next = if p + 1 < cs.len() {
                Some(cs[p + 1])
            } else {
                None
            };
            (Lexeme::Other(op_code(c, next).0), p + op_code(c, next).1)
        }
    }
}

#[via_fn]
proof fn lex_decreases(cs: Seq<char>, p: int) {
    if 0 <= p < cs.len() {
        lemma_skip_end_ge(cs, p + 1, CharClass::Line, false, false);
    }
}

impl<'a> Token<'a> {
    /// A keyword, or else an identifier.
    pub fn from_word(value: &'a str) -> (r: Token<'a>)
        ensures
            value@ == "if"@ ==> r is If,
            value@ == "let"@ ==> r is Let,
            value@ == "return"@ ==> r is Return,
            value@ == "else"@ ==> r is Else,
            value@ == "fn"@ ==> r is Func,
            value@ == "true"@ ==> r is True,
            value@ == "false"@ ==> r is False,
            r matches Token::Identifier(s) ==> s == value,
            !(r is Int),
            token_code(r) == word_code(value@),
    {
        proof {
            reveal_strlit("if");
            reveal_strlit("let");
            reveal_strlit("return");
            reveal_strlit("else");
            reveal_strlit("fn");
            reveal_strlit("true");
            reveal_strlit("false");
            assert("if"@.len() == 2 && "if"@[0] == 'i');
            assert("fn"@.len() == 2 && "fn"@[0] == 'f');
            assert("let"@.len() == 3);
            assert("return"@.len() == 6);
            assert("else"@.len() == 4 && "else"@[0] == 'e');
            assert("true"@.len() == 4 && "true"@[0] == 't');
            assert("false"@.len() == 5);
        }
        if same_text(value, "if") {
            Token::If
        } else if same_text(value, "let") {
            Token::Let
        } else if same_text(value, "return") {
            Token::Return
        } else if same_text(value, "else") {
            Token::Else
        } else if same_text(value, "fn") {
            Token::Func
        } else if same_text(value, "true") {
            Token::True
        } else if same_text(value, "false") {
            Token::False
        } else {
            Token::Identifier(value)
        }
    }
}

/// The language tokenizer.
pub struct Tokenizer<'a> {
    pos: usize,
    input: &'a str,
    chars: Vec<char>,
    unsupported: bool,
}

impl<'a> Tokenizer<'a> {
    /// The characters are those of the input and the cursor is inside them.
    pub closed spec fn wf(&self) -> bool {
        self.chars@ == self.input@ && self.pos <= self.chars@.len()
    }

    /// The characters of the input.
    pub closed spec fn text(&self) -> Seq<char> {
        self.chars@
    }

    /// How many characters have been read.
    pub closed spec fn position(&self) -> int {
        self.pos as int
    }

    /// Characters left to read.
    pub closed spec fn remaining(&self) -> nat {
        (self.chars@.len() - self.pos) as nat
    }

    /// Whether a literal the language does not support yet was met.
    pub closed spec fn met_unsupported(&self) -> bool {
        self.unsupported
    }

    /// Whether a literal the language does not support yet was met.
    pub fn met_unsupported_literal(&self) -> (r: bool)
        ensures
            r == self.met_unsupported(),
    {
        self.unsupported
    }

    /// A tokenizer at the start of `input`.
    pub fn new(input: &'a str) -> (r: Tokenizer<'a>)
        ensures
            r.wf(),
            r.remaining() == input@.len(),
            !r.met_unsupported(),
    {
        let n = input.unicode_len();
        let mut chars: Vec<char> = Vec::new();
        let mut i: usize = 0;
        while i < n
            invariant
                n == input@.len(),
                0 <= i <= n,
                chars@ =~= input@.subrange(0, i as int),
            decreases n - i,
        {
            chars.push(input.get_char(i));
            i = i + 1;
        }
        assert(input@.subrange(0, n as int) =~= input@);
        Tokenizer { pos: 0, input, chars, unsupported: false }
    }

    fn eat(&mut self) -> (r: Option<char>)
        requires
            old(self).wf(),
        ensures
            final(self).wf(),
            final(self).input == old(self).input,
            final(self).unsupported == old(self).unsupported,
            old(self).pos < old(self).chars@.len() ==> r == Some(old(self).chars@[old(self).pos as int])
                && final(self).pos == old(self).pos + 1,
            old(self).pos >= old(self).chars@.len() ==> r is None && final(self).pos == old(self).pos,
            final(self).chars == old(self).chars,
    {
        if self.pos < self.chars.len() {
            let c = self.chars[self.pos];
            self.pos = self.pos + 1;
            Some(c)
        } else {
            None
        }
    }

    fn peek(&self) -> (r: Option<char>)
        requires
            self.wf(),
        ensures
            self.pos < self.chars@.len() ==> r == Some(self.chars@[self.pos as int]),
            self.pos >= self.chars@.len() ==> r is None,
    {
        if self.pos < self.chars.len() {
            Some(self.chars[self.pos])
        } else {
            None
        }
    }

    fn is_eof(&self) -> (r: bool)
        requires
            self.wf(),
        ensures
            r == (self.remaining() == 0),
    {
        self.offset() >= self.chars.len()
    }

    /// Current offset, in characters.
    fn offset(&self) -> (r: usize)
        ensures
            r == self.pos,
    {
        self.pos
    }

    /// The input's characters from `from` to `to`.
    fn read_str(&self, from: usize, to: usize) -> (r: &'a str)
        requires
            self.wf(),
            from <= to <= self.chars@.len(),
        ensures
            r@ == self.input@.subrange(from as int, to as int),
    {
        self.input.substring_char(from, to)
    }

    /// Skips the characters for which `keep` holds.
    fn skip_while(&mut self, keep: CharClass)
        requires
            old(self).wf(),
        ensures
            final(self).wf(),
            final(self).input == old(self).input,
            final(self).chars == old(self).chars,
            final(self).unsupported == old(self).unsupported,
            old(self).pos <= final(self).pos,
            final(self).pos == skip_end(old(self).chars@, old(self).pos as int, keep, false, false),
            forall|k: int|
                old(self).pos <= k < final(self).pos ==> in_class(keep, #[trigger] final(self).chars@[k]),
    {
        let mut escaped = false;
        let mut decimal = false;
        let mut go = true;
        while go && !self.is_eof()
            invariant
                self.wf(),
                self.input == old(self).input,
                self.chars == old(self).chars,
                self.unsupported == old(self).unsupported,
                old(self).pos <= self.pos,
                forall|k: int| old(self).pos <= k < self.pos ==> in_class(keep, #[trigger] self.chars@[k]),
                go ==> skip_end(old(self).chars@, old(self).pos as int, keep, false, false)
                    == skip_end(self.chars@, self.pos as int, keep, escaped, decimal),
                !go ==> skip_end(old(self).chars@, old(self).pos as int, keep, false, false)
                    == self.pos,
            decreases self.remaining() + if go { 1int } else { 0int },
        {
            let c = self.chars[self.pos];
            let g = match keep {
                CharClass::Word => is_alphanumeric(c) || c == '_',
                CharClass::Number => ('0' <= c && c <= '9') || (!decimal && c == '.'),
                CharClass::InString => c != '"' || escaped,
                CharClass::Line => c != '\n',
            };
            if g {
                decimal = decimal || c == '.';
                escaped = self.eat() == Some('\\');
            } else {
                go = false;
            }
        }
    }

    /// The next token, or `None` at the end of the input. White space and
    /// line comments are skipped. A literal the language does not support yet
    /// (a decimal number or a string) gives `Unknown` and is remembered.
    pub fn next(&mut self) -> (r: Option<Token<'a>>)
        requires
            old(self).wf(),
        ensures
            final(self).wf(),
            r is None ==> final(self).remaining() == 0,
            r is Some ==> final(self).remaining() < old(self).remaining(),
            final(self).remaining() <= old(self).remaining(),
            old(self).met_unsupported() ==> final(self).met_unsupported(),
            old(self).remaining() == 0 ==> r is None && final(self).met_unsupported()
                == old(self).met_unsupported(),
            r matches Some(Token::Int(t)) ==> t@.len() > 0 && forall|i: int|
                0 <= i < t@.len() ==> '0' <= #[trigger] t@[i] <= '9',
            r matches Some(Token::Identifier(t)) ==> t@.len() > 0 && (alphabetic(t@[0]) || t@[0]
                == '_') && forall|i: int|
                1 <= i < t@.len() ==> alphanumeric(#[trigger] t@[i]) || t@[i] == '_',
            final(self).text() == old(self).text(),
            final(self).position() == lex(old(self).text(), old(self).position()).1,
            match lex(old(self).text(), old(self).position()).0 {
                Lexeme::End => r is None,
                Lexeme::Word(a, b) => r matches Some(t) && token_code(t) == word_code(
                    old(self).text().subrange(a, b),
                ) && (t matches Token::Identifier(w) ==> w@ == old(self).text().subrange(a, b)),
                Lexeme::Number(a, b) => r matches Some(Token::Int(w)) && w@
                    == old(self).text().subrange(a, b),
                Lexeme::Unsupported => r == Some(Token::Unknown) && final(self).met_unsupported(),
                Lexeme::Other(code) => r matches Some(t) && token_code(t) == code,
            },
            !(lex(old(self).text(), old(self).position()).0 is Unsupported)
                ==> final(self).met_unsupported() == old(self).met_unsupported(),
    {
        loop
            invariant
                self.wf(),
                self.chars == old(self).chars,
                lex(old(self).chars@, old(self).pos as int) == lex(self.chars@, self.pos as int),
                self.unsupported == old(self).unsupported,
                self.remaining() <= old(self).remaining(),
                old(self).met_unsupported() ==> self.met_unsupported(),
                old(self).remaining() == 0 ==> self.remaining() == 0 && self.met_unsupported()
                    == old(self).met_unsupported(),
            decreases self.remaining(),
        {
            let start = self.offset();
            let ghost cs = self.chars@;
            let c = match self.eat() {
                Some(c) => c,
                None => return None,
            };
            proof {
                lemma_skip_end_ge(cs, start as int + 1, CharClass::Word, false, false);
                lemma_skip_end_ge(cs, start as int + 1, CharClass::Number, false, false);
                lemma_skip_end_ge(cs, start as int + 1, CharClass::InString, false, false);
                lemma_skip_end_ge(cs, start as int + 1, CharClass::Line, false, false);
            }
            if is_alphabetic(c) || c == '_' {
                self.skip_while(CharClass::Word);
                let ident = self.read_str(start, self.offset());
                assert(ident@[0] == c);
                assert forall|i: int| 1 <= i < ident@.len() implies alphanumeric(#[trigger] ident@[i])
                    || ident@[i] == '_' by {
                    assert(ident@[i] == self.chars@[start + i]);
                    assert(in_class(CharClass::Word, self.chars@[start + i]));
                }
                assert(ident@ == cs.subrange(start as int, self.pos as int));
                return Some(Token::from_word(ident));
            }
            if '0' <= c && c <= '9' {
                let before = self.offset();
                self.skip_while(CharClass::Number);
                let val = self.read_str(start, self.offset());
                let mut k = before;
                let mut decimal = false;
                while k < self.offset()
                    invariant
                        self.wf(),
                        before <= k <= self.pos,
                        decimal == exists|m: int| before <= m < k && self.chars@[m] == '.',
                    decreases self.pos - k,
                {
                    if self.chars[k] == '.' {
                        decimal = true;
                    }
                    k = k + 1;
                }
                if decimal {
                    self.unsupported = true;
                    return Some(Token::Unknown);
                }
                assert forall|i: int| 0 <= i < val@.len() implies '0' <= #[trigger] val@[i] <= '9' by {
                    assert(val@[i] == self.chars@[start + i]);
                    if i > 0 {
                        assert(in_class(CharClass::Number, self.chars@[start + i]));
                    }
                }
                return Some(Token::Int(val));
            }
            if c == '"' {
                self.skip_while(CharClass::InString);
                if self.eat().is_none() {
                    return None;
                }
                self.unsupported = true;
                return Some(Token::Unknown);
            }
            if is_whitespace(c) {
                continue;
            }
            let next = self.peek();
            if c == '/' && next == Some('/') {
                self.skip_while(CharClass::Line);
                continue;
            }
            let (token, width) = op_token(c, next);
            if width == 2 {
                self.eat();
            }
            return Some(token);
        }
    }
}

/// Whether `skip_while` skips `c` for `keep`: its guarantee on what it
/// skipped.
spec fn in_class(keep: CharClass, c: char) -> bool {
    match keep {
        CharClass::Word => alphanumeric(c) || c == '_',
        CharClass::Number => ('0' <= c && c <= '9') || c == '.',
        CharClass::InString => true,
        CharClass::Line => c != '\n',
    }
}

/// The operator or punctuation token that starts with `c`, followed by
/// `next`, and how many characters it takes.
fn op_token<'a>(c: char, next: Option<char>) -> (r: (Token<'a>, usize))
    ensures
        token_code(r.0) == op_code(c, next).0,
        r.1 == op_code(c, next).1,
        !(r.0 is Identifier) && !(r.0 is Int),
{
    let eq = next == Some('=');
    match c {
        '=' => if eq { (Token::Eq, 2) } else { (Token::Assign, 1) },
        '!' => if eq { (Token::Ne, 2) } else { (Token::Not, 1) },
        '<' => if eq { (Token::Lte, 2) } else { (Token::Lt, 1) },
        '>' => if eq { (Token::Gte, 2) } else { (Token::Gt, 1) },
        '/' => (Token::Slash, 1),
        '&' => if next == Some('&') { (Token::And, 2) } else { (Token::Unknown, 1) },
        '|' => if next == Some('|') { (Token::Or, 2) } else { (Token::Unknown, 1) },
        ';' => (Token::Semicolon, 1),
        ':' => (Token::Colon, 1),
        ',' => (Token::Comma, 1),
        '.' => (Token::Dot, 1),
        '(' => (Token::OpenParenthese, 1),
        ')' => (Token::CloseParenthese, 1),
        '{' => (Token::OpenBrace, 1),
        '}' => (Token::CloseBrace, 1),
        '[' => (Token::OpenBracket, 1),
        ']' => (Token::CloseBracket, 1),
        '-' => (Token::Minus, 1),
        '+' => (Token::Plus, 1),
        '*' => (Token::Star, 1),
        '^' => (Token::Caret, 1),
        '%' => (Token::Percent, 1),
        _ => (Token::Unknown, 1),
    }
}

/// Which characters `skip_while` skips.
#[derive(Clone, Copy)]
pub enum CharClass {
    /// Letters, digits and underscores.
    Word,
    /// Digits, and one decimal point.
    Number,
    /// Anything up to an unescaped double quote.
    InString,
    /// Anything up to the end of the line.
    Line,
}

} // verus!
