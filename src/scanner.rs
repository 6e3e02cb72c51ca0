//! A single-pass scanner that turns source text into tokens without copying it.
use vstd::prelude::*;
use vstd::string::StringSliceAdditionalSpecFns;

verus! {

broadcast use vstd::array::group_array_axioms;

/// The kinds of token.
#[derive(Clone, Copy, Debug, PartialEq, Eq, Structural)]
pub enum TokenType {
    // Single-character tokens.
    LeftParen,
    RightParen,
    LeftBrace,
    RightBrace,
    Comma,
    Dot,
    Minus,
    Plus,
    Semicolon,
    Slash,
    Star,
    // One or two character tokens.
    Bang,
    BangEqual,
    Equal,
    EqualEqual,
    Greater,
    GreaterEqual,
    Less,
    LessEqual,
    // Literals.
    Ident,
    String,
    Num,
    // Keywords.
    And,
    Class,
    Else,
    False,
    For,
    Fun,
    If,
    Nil,
    Or,
    Print,
    Return,
    Super,
    This,
    True,
    Var,
    While,
    Error,
    Eof,
}

/// A classified lexeme: its kind, where it lies in the source (byte offset
/// and length), and the line on which it starts. An `Error` token carries a
/// diagnostic message as well; for every other token `message` is empty.
pub struct Token {
    pub token_type: TokenType,
    pub start: usize,
    pub length: usize,
    pub line: usize,
    pub message: &'static str,
}

impl Token {
    /// The token reports the lexeme `x`.
    pub open spec fn is_lexeme(&self, x: Lexeme) -> bool {
        &&& self.token_type == x.kind
        &&& self.start == x.start
        &&& self.start + self.length == x.end
        &&& self.line == x.line
        &&& self.message@ == x.message
    }
}

/// The byte at `i`, or 0 past the end of the source.
pub open spec fn byte_at(s: Seq<u8>, i: int) -> u8 {
    if 0 <= i < s.len() {
        s[i]
    } else {
        0
    }
}

/// The source ends at its last byte or at the first NUL byte.
pub open spec fn at_end(s: Seq<u8>, i: int) -> bool {
    byte_at(s, i) == 0
}

pub open spec fn spec_is_digit(c: u8) -> bool {
    ('0' as u8) <= c <= ('9' as u8)
}

pub open spec fn spec_is_alpha(c: u8) -> bool {
    (('a' as u8) <= c <= ('z' as u8)) || (('A' as u8) <= c <= ('Z' as u8)) || c == '_' as u8
}

/// Position and line reached from `i` by skipping blanks, newlines and
/// `//` comments; `in_comment` says that `i` lies inside a comment.
pub open spec fn skip_trivia(s: Seq<u8>, i: nat, line: nat, in_comment: bool) -> (nat, nat)
    decreases s.len() - i,
{
    let c = byte_at(s, i as int);
    if i >= s.len() || c == 0 {
        (i, line)
    } else if c == '\n' as u8 {
        skip_trivia(s, i + 1, line + 1, false)
    } else if in_comment {
        skip_trivia(s, i + 1, line, true)
    } else if c == ' ' as u8 || c == '\r' as u8 || c == '\t' as u8 {
        skip_trivia(s, i + 1, line, false)
    } else if c == '/' as u8 && byte_at(s, i + 1 as int) == '/' as u8 {
        skip_trivia(s, i + 1, line, true)
    } else {
        (i, line)
    }
}

/// The end of the run of letters, digits and underscores that starts at `i`.
pub open spec fn word_end(s: Seq<u8>, i: nat) -> nat
    decreases s.len() - i,
{
    if i < s.len() && (spec_is_alpha(s[i as int]) || spec_is_digit(s[i as int])) {
        word_end(s, i + 1)
    } else {
        i
    }
}

/// The end of the run of digits that starts at `i`.
pub open spec fn digits_end(s: Seq<u8>, i: nat) -> nat
    decreases s.len() - i,
{
    if i < s.len() && spec_is_digit(s[i as int]) {
        digits_end(s, i + 1)
    } else {
        i
    }
}

/// The end of a number whose first digit lies before `i`: a digit run,
/// then optionally a `.` followed by another digit run.
pub open spec fn number_end(s: Seq<u8>, i: nat) -> nat {
    let d = digits_end(s, i);
    if byte_at(s, d as int) == '.' as u8 && spec_is_digit(byte_at(s, d + 1 as int)) {
        digits_end(s, d + 1)
    } else {
        d
    }
}

/// From inside a string literal at `i`: the position of the closing quote
/// (or of the end of the source) and the line reached there.
pub open spec fn string_body_end(s: Seq<u8>, i: nat, line: nat) -> (nat, nat)
    decreases s.len() - i,
{
    let c = byte_at(s, i as int);
    if i >= s.len() || c == 0 || c == '"' as u8 {
        (i, line)
    } else if c == '\n' as u8 {
        string_body_end(s, i + 1, line + 1)
    } else {
        string_body_end(s, i + 1, line)
    }
}

/// The keyword that a word spells, or `Ident`.
pub open spec fn keyword_kind(w: Seq<u8>) -> TokenType {
    if w == seq!['a' as u8, 'n' as u8, 'd' as u8] {
        TokenType::And
    } else if w == seq!['c' as u8, 'l' as u8, 'a' as u8, 's' as u8, 's' as u8] {
        TokenType::Class
    } else if w == seq!['e' as u8, 'l' as u8, 's' as u8, 'e' as u8] {
        TokenType::Else
    } else if w == seq!['f' as u8, 'a' as u8, 'l' as u8, 's' as u8, 'e' as u8] {
        TokenType::False
    } else if w == seq!['f' as u8, 'o' as u8, 'r' as u8] {
        TokenType::For
    } else if w == seq!['f' as u8, 'u' as u8, 'n' as u8] {
        TokenType::Fun
    } else if w == seq!['i' as u8, 'f' as u8] {
        TokenType::If
    } else if w == seq!['n' as u8, 'i' as u8, 'l' as u8] {
        TokenType::Nil
    } else if w == seq!['o' as u8, 'r' as u8] {
        TokenType::Or
    } else if w == seq!['p' as u8, 'r' as u8, 'i' as u8, 'n' as u8, 't' as u8] {
        TokenType::Print
    } else if w == seq!['r' as u8, 'e' as u8, 't' as u8, 'u' as u8, 'r' as u8, 'n' as u8] {
        TokenType::Return
    } else if w == seq!['s' as u8, 'u' as u8, 'p' as u8, 'e' as u8, 'r' as u8] {
        TokenType::Super
    } else if w == seq!['t' as u8, 'h' as u8, 'i' as u8, 's' as u8] {
        TokenType::This
    } else if w == seq!['t' as u8, 'r' as u8, 'u' as u8, 'e' as u8] {
        TokenType::True
    } else if w == seq!['v' as u8, 'a' as u8, 'r' as u8] {
        TokenType::Var
    } else if w == seq!['w' as u8, 'h' as u8, 'i' as u8, 'l' as u8, 'e' as u8] {
        TokenType::While
    } else {
        TokenType::Ident
    }
}

/// The token of a single punctuation character, if it is one.
pub open spec fn single_char_kind(c: u8) -> Option<TokenType> {
    if c == '(' as u8 {
        Some(TokenType::LeftParen)
    } else if c == ')' as u8 {
        Some(TokenType::RightParen)
    } else if c == '{' as u8 {
        Some(TokenType::LeftBrace)
    } else if c == '}' as u8 {
        Some(TokenType::RightBrace)
    } else if c == ';' as u8 {
        Some(TokenType::Semicolon)
    } else if c == ',' as u8 {
        Some(TokenType::Comma)
    } else if c == '.' as u8 {
        Some(TokenType::Dot)
    } else if c == '-' as u8 {
        Some(TokenType::Minus)
    } else if c == '+' as u8 {
        Some(TokenType::Plus)
    } else if c == '/' as u8 {
        Some(TokenType::Slash)
    } else if c == '*' as u8 {
        Some(TokenType::Star)
    } else {
        None
    }
}

/// For `!`, `=`, `<` and `>`: the token alone and the token followed by `=`.
pub open spec fn operator_kinds(c: u8) -> Option<(TokenType, TokenType)> {
    if c == '!' as u8 {
        Some((TokenType::Bang, TokenType::BangEqual))
    } else if c == '=' as u8 {
        Some((TokenType::Equal, TokenType::EqualEqual))
    } else if c == '<' as u8 {
        Some((TokenType::Less, TokenType::LessEqual))
    } else if c == '>' as u8 {
        Some((TokenType::Greater, TokenType::GreaterEqual))
    } else {
        None
    }
}

/// What one scan finds: the token's kind, its span `[start, end)` (the
/// scanner's position afterwards is `end`), the line it starts on, the line
/// reached at `end`, and the diagnostic of an `Error` token.
pub struct Lexeme {
    pub kind: TokenType,
    pub start: nat,
    pub end: nat,
    pub line: nat,
    pub end_line: nat,
    pub message: Seq<char>,
}

pub open spec fn lexeme(kind: TokenType, start: nat, end: nat, line: nat, end_line: nat) -> Lexeme {
    Lexeme { kind, start, end, line, end_line, message: Seq::empty() }
}

pub open spec fn error_lexeme(start: nat, end: nat, line: nat, end_line: nat, message: Seq<char>) -> Lexeme {
    Lexeme { kind: TokenType::Error, start, end, line, end_line, message }
}

/// The next token of `s` for a scanner at position `cur` on line `line`.
pub open spec fn next_lexeme(s: Seq<u8>, cur: nat, line: nat) -> Lexeme {
    let (p, l) = skip_trivia(s, cur, line, false);
    let c = byte_at(s, p as int);
    if at_end(s, p as int) {
        lexeme(TokenType::Eof, p, p, l, l)
    } else if spec_is_alpha(c) {
        let e = word_end(s, p + 1);
        lexeme(keyword_kind(s.subrange(p as int, e as int)), p, e, l, l)
    } else if spec_is_digit(c) {
        lexeme(TokenType::Num, p, number_end(s, p + 1), l, l)
    } else if c == '"' as u8 {
        let (q, l2) = string_body_end(s, p + 1, l);
        if at_end(s, q as int) {
            error_lexeme(p, q, l, l2, "Unterminated string"@)
        } else {
            lexeme(TokenType::String, p, q + 1, l, l2)
        }
    } else if single_char_kind(c) is Some {
        lexeme(single_char_kind(c)->0, p, p + 1, l, l)
    } else if let Some((alone, with_equal)) = operator_kinds(c) {
        if byte_at(s, p + 1 as int) == '=' as u8 {
            lexeme(with_equal, p, p + 2, l, l)
        } else {
            lexeme(alone, p, p + 1, l, l)
        }
    } else {
        error_lexeme(p, p + 1, l, l, "Unexpected character."@)
    }
}

/// The lexeme `s[from..to)`, whose first `k` bytes are those of the keyword
/// `kw`, is `kw` exactly when it has its length and the rest of it is `rest`,
/// the remaining bytes of `kw`.
proof fn lemma_keyword_branch(s: Seq<u8>, from: int, to: int, k: int, kw: Seq<u8>, rest: Seq<u8>)
    requires
        0 <= from,
        from + k <= to <= s.len(),
        0 < k <= kw.len(),
        forall|j: int| 0 <= j < k ==> s[from + j] == kw[j],
        kw.subrange(k, kw.len() as int) =~= rest,
    ensures
        (s.subrange(from, to) == kw) <==> (to - from == kw.len() && s.subrange(from + k, to) == rest),
{
    let w = s.subrange(from, to);
    if to - from == kw.len() && s.subrange(from + k, to) == rest {
        assert forall|j: int| 0 <= j < w.len() implies w[j] == kw[j] by {
            if j >= k {
                assert(s.subrange(from + k, to)[j - k] == rest[j - k]);
            }
        }
        assert(w =~= kw);
    }
    if w == kw {
        assert(s.subrange(from + k, to) =~= rest);
    }
}

/// The scanner: a borrowed view of the source and three cursors.
pub struct Scanner<'a> {
    source: &'a [u8],
    start: usize,
    current: usize,
    line: usize,
}

impl<'a> Scanner<'a> {
    /// The source's bytes.
    pub closed spec fn text(&self) -> Seq<u8> {
        self.source@
    }

    /// The scan position.
    pub closed spec fn position(&self) -> nat {
        self.current as nat
    }

    /// Where the lexeme being scanned starts.
    pub closed spec fn lexeme_start(&self) -> nat {
        self.start as nat
    }

    /// The line of the scan position.
    pub closed spec fn current_line(&self) -> nat {
        self.line as nat
    }

    pub closed spec fn wf(&self) -> bool {
        &&& self.start <= self.current <= self.source@.len()
        &&& 1 <= self.line <= self.current + 1
        &&& self.source@.len() < usize::MAX
    }

    pub fn new(source: &'a str) -> (r: Self)
        requires
            source.spec_bytes().len() < usize::MAX,
        ensures
            r.wf(),
            r.text() == source.spec_bytes(),
            r.lexeme_start() == 0,
            r.position() == 0,
            r.current_line() == 1,
    {
        Scanner { source: source.as_bytes(), start: 0, current: 0, line: 1 }
    }

    pub fn is_digit(c: u8) -> (r: bool)
        ensures
            r == spec_is_digit(c),
    {
        ('0' as u8) <= c && c <= ('9' as u8)
    }

    pub fn is_alpha(c: u8) -> (r: bool)
        ensures
            r == spec_is_alpha(c),
    {
        (('a' as u8) <= c && c <= ('z' as u8)) || (('A' as u8) <= c && c <= ('Z' as u8)) || c == '_' as u8
    }

    pub fn peek(&self) -> (r: u8)
        requires
            self.wf(),
        ensures
            r == byte_at(self.text(), self.position() as int),
    {
        if self.current < self.source.len() {
            self.source[self.current]
        } else {
            0
        }
    }

    pub fn peek_next(&self) -> (r: u8)
        requires
            self.wf(),
        ensures
            r == if at_end(self.text(), self.position() as int) {
                0
            } else {
                byte_at(self.text(), self.position() + 1 as int)
            },
    {
        if self.is_at_end() {
            return 0;
        }
        if self.current + 1 < self.source.len() {
            self.source[self.current + 1]
        } else {
            0
        }
    }

    pub fn is_at_end(&self) -> (r: bool)
        requires
            self.wf(),
        ensures
            r == at_end(self.text(), self.position() as int),
    {
        self.peek() == 0
    }

    /// Consumes one byte and returns it; at the end nothing moves and 0 comes back.
    pub fn advance(&mut self) -> (r: u8)
        requires
            old(self).wf(),
        ensures
            final(self).wf(),
            r == byte_at(old(self).text(), old(self).position() as int),
            final(self).text() == old(self).text(),
            final(self).lexeme_start() == old(self).lexeme_start(),
            final(self).current_line() == old(self).current_line(),
            final(self).position() == if r == 0 {
                old(self).position()
            } else {
                old(self).position() + 1
            },
    {
        let c = self.peek();
        if c != 0 {
            self.current = self.current + 1;
        }
        c
    }

    /// Whether the next byte is `expected`; if so it is consumed.
    pub fn check(&mut self, expected: u8) -> (r: bool)
        requires
            old(self).wf(),
        ensures
            final(self).wf(),
            r == (!at_end(old(self).text(), old(self).position() as int) && byte_at(
                old(self).text(),
                old(self).position() as int,
            ) == expected),
            final(self).text() == old(self).text(),
            final(self).lexeme_start() == old(self).lexeme_start(),
            final(self).current_line() == old(self).current_line(),
            final(self).position() == if r {
                old(self).position() + 1
            } else {
                old(self).position()
            },
    {
        if self.is_at_end() {
            return false;
        }
        if self.peek() != expected {
            return false;
        }
        self.current = self.current + 1;
        true
    }

    /// Skips blanks, newlines (counting them) and `//` comments.
    pub fn skip_whitespace(&mut self)
        requires
            old(self).wf(),
        ensures
            final(self).wf(),
            final(self).text() == old(self).text(),
            final(self).lexeme_start() == old(self).lexeme_start(),
            (final(self).position(), final(self).current_line()) == skip_trivia(
                old(self).text(),
                old(self).position(),
                old(self).current_line(),
                false,
            ),
    {
        let ghost s = self.source@;
        let ghost goal = skip_trivia(s, self.current as nat, self.line as nat, false);
        let mut in_comment = false;
        loop
            invariant
                self.wf(),
                self.source == old(self).source,
                self.start == old(self).start,
                s == self.source@,
                skip_trivia(s, self.current as nat, self.line as nat, in_comment) == goal,
                goal == skip_trivia(
                    old(self).source@,
                    old(self).current as nat,
                    old(self).line as nat,
                    false,
                ),
            decreases self.source@.len() - self.current,
        {
            let c = self.peek();
            if c == 0 {
                return;
            }
            if c == '\n' as u8 {
                self.current = self.current + 1;
                self.line = self.line + 1;
                in_comment = false;
            } else if in_comment {
                self.current = self.current + 1;
            } else if c == ' ' as u8 || c == '\r' as u8 || c == '\t' as u8 {
                self.current = self.current + 1;
            } else if c == '/' as u8 && self.peek_next() == '/' as u8 {
                self.current = self.current + 1;
                in_comment = true;
            } else {
                return;
            }
        }
    }

    pub fn make_token(&self, token_type: TokenType, line: usize) -> (t: Token)
        requires
            self.lexeme_start() <= self.position(),
        ensures
            t.token_type == token_type,
            t.start == self.lexeme_start(),
            t.length == self.position() - self.lexeme_start(),
            t.line == line,
            t.message@ == Seq::<char>::empty(),
    {
        proof {
            reveal_strlit("");
        }
        Token { token_type, start: self.start, length: self.current - self.start, line, message: "" }
    }

    pub fn error_token(&self, message: &'static str, line: usize) -> (t: Token)
        requires
            self.lexeme_start() <= self.position(),
        ensures
            t.token_type == TokenType::Error,
            t.start == self.lexeme_start(),
            t.length == self.position() - self.lexeme_start(),
            t.line == line,
            t.message == message,
    {
        Token {
            token_type: TokenType::Error,
            start: self.start,
            length: self.current - self.start,
            line,
            message,
        }
    }

    /// Scans the rest of a string literal whose opening quote was consumed.
    pub fn string(&mut self, line: usize) -> (t: Token)
        requires
            old(self).wf(),
            old(self).lexeme_start() < old(self).position(),
        ensures
            final(self).wf(),
            final(self).text() == old(self).text(),
            final(self).lexeme_start() == old(self).lexeme_start(),
            ({
                let (q, l2) = string_body_end(
                    old(self).text(),
                    old(self).position(),
                    old(self).current_line(),
                );
                &&& final(self).current_line() == l2
                &&& t.start == old(self).lexeme_start()
                &&& t.line == line
                &&& t.length == final(self).position() - old(self).lexeme_start()
                &&& if at_end(old(self).text(), q as int) {
                    &&& t.token_type == TokenType::Error
                    &&& t.message@ == "Unterminated string"@
                    &&& final(self).position() == q
                } else {
                    &&& t.token_type == TokenType::String
                    &&& t.message@ == Seq::<char>::empty()
                    &&& final(self).position() == q + 1
                }
            }),
    {
        let ghost s = self.source@;
        let ghost goal = string_body_end(s, self.current as nat, self.line as nat);
        while self.peek() != '"' as u8 && !self.is_at_end()
            invariant
                self.wf(),
                self.source == old(self).source,
                self.start == old(self).start,
                s == self.source@,
                string_body_end(s, self.current as nat, self.line as nat) == goal,
            decreases self.source@.len() - self.current,
        {
            if self.advance() == '\n' as u8 {
                self.line = self.line + 1;
            }
        }
        if self.is_at_end() {
            return self.error_token("Unterminated string", line);
        }
        self.advance();
        self.make_token(TokenType::String, line)
    }

    /// Consumes a run of digits.
    fn digits(&mut self)
        requires
            old(self).wf(),
        ensures
            final(self).wf(),
            final(self).text() == old(self).text(),
            final(self).lexeme_start() == old(self).lexeme_start(),
            final(self).current_line() == old(self).current_line(),
            final(self).position() == digits_end(old(self).text(), old(self).position()),
    {
        let ghost s = self.source@;
        let ghost goal = digits_end(s, self.current as nat);
        while Self::is_digit(self.peek())
            invariant
                self.wf(),
                self.source == old(self).source,
                self.start == old(self).start,
                self.line == old(self).line,
                s == self.source@,
                digits_end(s, self.current as nat) == goal,
            decreases self.source@.len() - self.current,
        {
            self.advance();
        }
    }

    /// Scans the rest of a number whose first digit was consumed.
    pub fn number(&mut self, line: usize) -> (t: Token)
        requires
            old(self).wf(),
            old(self).lexeme_start() <= old(self).position(),
        ensures
            final(self).wf(),
            final(self).text() == old(self).text(),
            final(self).lexeme_start() == old(self).lexeme_start(),
            final(self).current_line() == old(self).current_line(),
            final(self).position() == number_end(old(self).text(), old(self).position()),
            t.token_type == TokenType::Num,
            t.start == old(self).lexeme_start(),
            t.length == final(self).position() - old(self).lexeme_start(),
            t.line == line,
            t.message@ == Seq::<char>::empty(),
    {
        self.digits();
        if self.peek() == '.' as u8 && Self::is_digit(self.peek_next()) {
            self.advance();
            self.digits();
        }
        self.make_token(TokenType::Num, line)
    }

    /// Scans the rest of an identifier or keyword whose first letter was consumed.
    pub fn ident(&mut self, line: usize) -> (t: Token)
        requires
            old(self).wf(),
            old(self).lexeme_start() < old(self).position(),
        ensures
            final(self).wf(),
            final(self).text() == old(self).text(),
            final(self).lexeme_start() == old(self).lexeme_start(),
            final(self).current_line() == old(self).current_line(),
            final(self).position() == word_end(old(self).text(), old(self).position()),
            t.token_type == keyword_kind(
                old(self).text().subrange(old(self).lexeme_start() as int, final(self).position() as int),
            ),
            t.start == old(self).lexeme_start(),
            t.length == final(self).position() - old(self).lexeme_start(),
            t.line == line,
            t.message@ == Seq::<char>::empty(),
    {
        let ghost s = self.source@;
        let ghost goal = word_end(s, self.current as nat);
        while Self::is_alpha(self.peek()) || Self::is_digit(self.peek())
            invariant
                self.wf(),
                self.source == old(self).source,
                self.start == old(self).start,
                self.line == old(self).line,
                old(self).start < self.current,
                s == self.source@,
                word_end(s, self.current as nat) == goal,
            decreases self.source@.len() - self.current,
        {
            self.advance();
        }
        let token_type = self.ident_type();
        self.make_token(token_type, line)
    }

    /// `kind` if the lexeme is `rest` preceded by `start` bytes already
    /// matched, else `Ident`.
    pub fn check_keyword(&self, start: usize, length: usize, rest: &[u8], kind: TokenType) -> (r: TokenType)
        requires
            self.wf(),
            start <= length + start <= usize::MAX,
        ensures
            r == if self.position() - self.lexeme_start() == start + length && rest@.len() == length
                && self.text().subrange(
                self.lexeme_start() + start,
                self.position() as int,
            ) == rest@ {
                kind
            } else {
                TokenType::Ident
            },
    {
        if self.current - self.start != start + length || rest.len() != length {
            return TokenType::Ident;
        }
        let from = self.start + start;
        let mut k: usize = 0;
        while k < length
            invariant
                self.wf(),
                rest@.len() == length,
                from == self.start + start,
                from + length == self.current,
                k <= length,
                forall|j: int| 0 <= j < k ==> self.source@[from + j] == rest@[j],
            decreases length - k,
        {
            if self.source[from + k] != rest[k] {
                assert(self.source@.subrange(from as int, self.current as int)[k as int] != rest@[k as int]);
                return TokenType::Ident;
            }
            k = k + 1;
        }
        assert(self.source@.subrange(from as int, self.current as int) =~= rest@);
        kind
    }

    /// Classifies the lexeme `[start, current)`: a keyword or `Ident`.
    pub fn ident_type(&self) -> (r: TokenType)
        requires
            self.wf(),
            self.lexeme_start() < self.position(),
        ensures
            r == keyword_kind(self.text().subrange(self.lexeme_start() as int, self.position() as int)),
    {
        let ghost w = self.source@.subrange(self.start as int, self.current as int);
        let c = self.source[self.start];
        assert(w[0] == c);
        if c == 'a' as u8 {
            let rest: &[u8] = &['n' as u8, 'd' as u8];
            let r = self.check_keyword(1, 2, rest, TokenType::And);
            proof {
                lemma_keyword_branch(self.source@, self.start as int, self.current as int, 1, seq!['a' as u8, 'n' as u8, 'd' as u8], rest@);
            }
            r
        } else if c == 'c' as u8 {
            let rest: &[u8] = &['l' as u8, 'a' as u8, 's' as u8, 's' as u8];
            let r = self.check_keyword(1, 4, rest, TokenType::Class);
            proof {
                lemma_keyword_branch(self.source@, self.start as int, self.current as int, 1, seq!['c' as u8, 'l' as u8, 'a' as u8, 's' as u8, 's' as u8], rest@);
            }
            r
        } else if c == 'e' as u8 {
            let rest: &[u8] = &['l' as u8, 's' as u8, 'e' as u8];
            let r = self.check_keyword(1, 3, rest, TokenType::Else);
            proof {
                lemma_keyword_branch(self.source@, self.start as int, self.current as int, 1, seq!['e' as u8, 'l' as u8, 's' as u8, 'e' as u8], rest@);
            }
            r
        } else if c == 'i' as u8 {
            let rest: &[u8] = &['f' as u8];
            let r = self.check_keyword(1, 1, rest, TokenType::If);
            proof {
                lemma_keyword_branch(self.source@, self.start as int, self.current as int, 1, seq!['i' as u8, 'f' as u8], rest@);
            }
            r
        } else if c == 'n' as u8 {
            let rest: &[u8] = &['i' as u8, 'l' as u8];
            let r = self.check_keyword(1, 2, rest, TokenType::Nil);
            proof {
                lemma_keyword_branch(self.source@, self.start as int, self.current as int, 1, seq!['n' as u8, 'i' as u8, 'l' as u8], rest@);
            }
            r
        } else if c == 'o' as u8 {
            let rest: &[u8] = &['r' as u8];
            let r = self.check_keyword(1, 1, rest, TokenType::Or);
            proof {
                lemma_keyword_branch(self.source@, self.start as int, self.current as int, 1, seq!['o' as u8, 'r' as u8], rest@);
            }
            r
        } else if c == 'p' as u8 {
            let rest: &[u8] = &['r' as u8, 'i' as u8, 'n' as u8, 't' as u8];
            let r = self.check_keyword(1, 4, rest, TokenType::Print);
            proof {
                lemma_keyword_branch(self.source@, self.start as int, self.current as int, 1, seq!['p' as u8, 'r' as u8, 'i' as u8, 'n' as u8, 't' as u8], rest@);
            }
            r
        } else if c == 'r' as u8 {
            let rest: &[u8] = &['e' as u8, 't' as u8, 'u' as u8, 'r' as u8, 'n' as u8];
            let r = self.check_keyword(1, 5, rest, TokenType::Return);
            proof {
                lemma_keyword_branch(self.source@, self.start as int, self.current as int, 1, seq!['r' as u8, 'e' as u8, 't' as u8, 'u' as u8, 'r' as u8, 'n' as u8], rest@);
            }
            r
        } else if c == 's' as u8 {
            let rest: &[u8] = &['u' as u8, 'p' as u8, 'e' as u8, 'r' as u8];
            let r = self.check_keyword(1, 4, rest, TokenType::Super);
            proof {
                lemma_keyword_branch(self.source@, self.start as int, self.current as int, 1, seq!['s' as u8, 'u' as u8, 'p' as u8, 'e' as u8, 'r' as u8], rest@);
            }
            r
        } else if c == 'v' as u8 {
            let rest: &[u8] = &['a' as u8, 'r' as u8];
            let r = self.check_keyword(1, 2, rest, TokenType::Var);
            proof {
                lemma_keyword_branch(self.source@, self.start as int, self.current as int, 1, seq!['v' as u8, 'a' as u8, 'r' as u8], rest@);
            }
            r
        } else if c == 'w' as u8 {
            let rest: &[u8] = &['h' as u8, 'i' as u8, 'l' as u8, 'e' as u8];
            let r = self.check_keyword(1, 4, rest, TokenType::While);
            proof {
                lemma_keyword_branch(self.source@, self.start as int, self.current as int, 1, seq!['w' as u8, 'h' as u8, 'i' as u8, 'l' as u8, 'e' as u8], rest@);
            }
            r
        } else if c == 'f' as u8 && self.current - self.start > 1 {
            let c2 = self.source[self.start + 1];
            assert(w[1] == c2);
            if c2 == 'a' as u8 {
                let rest: &[u8] = &['l' as u8, 's' as u8, 'e' as u8];
                let r = self.check_keyword(2, 3, rest, TokenType::False);
                proof {
                    lemma_keyword_branch(self.source@, self.start as int, self.current as int, 2, seq!['f' as u8, 'a' as u8, 'l' as u8, 's' as u8, 'e' as u8], rest@);
                }
                r
            } else if c2 == 'o' as u8 {
                let rest: &[u8] = &['r' as u8];
                let r = self.check_keyword(2, 1, rest, TokenType::For);
                proof {
                    lemma_keyword_branch(self.source@, self.start as int, self.current as int, 2, seq!['f' as u8, 'o' as u8, 'r' as u8], rest@);
                }
                r
            } else if c2 == 'u' as u8 {
                let rest: &[u8] = &['n' as u8];
                let r = self.check_keyword(2, 1, rest, TokenType::Fun);
                proof {
                    lemma_keyword_branch(self.source@, self.start as int, self.current as int, 2, seq!['f' as u8, 'u' as u8, 'n' as u8], rest@);
                }
                r
            } else {
                TokenType::Ident
            }
        } else if c == 't' as u8 && self.current - self.start > 1 {
            let c2 = self.source[self.start + 1];
            assert(w[1] == c2);
            if c2 == 'h' as u8 {
                let rest: &[u8] = &['i' as u8, 's' as u8];
                let r = self.check_keyword(2, 2, rest, TokenType::This);
                proof {
                    lemma_keyword_branch(self.source@, self.start as int, self.current as int, 2, seq!['t' as u8, 'h' as u8, 'i' as u8, 's' as u8], rest@);
                }
                r
            } else if c2 == 'r' as u8 {
                let rest: &[u8] = &['u' as u8, 'e' as u8];
                let r = self.check_keyword(2, 2, rest, TokenType::True);
                proof {
                    lemma_keyword_branch(self.source@, self.start as int, self.current as int, 2, seq!['t' as u8, 'r' as u8, 'u' as u8, 'e' as u8], rest@);
                }
                r
            } else {
                TokenType::Ident
            }
        } else {
            assert(w.len() == 1 ==> w =~= seq![c]);
            TokenType::Ident
        }
    }

    /// Scans the next token. Past the end of the source every call returns
    /// `Eof` again.
    pub fn scan_token(&mut self) -> (t: Token)
        requires
            old(self).wf(),
        ensures
            final(self).wf(),
            final(self).text() == old(self).text(),
            t.is_lexeme(next_lexeme(old(self).text(), old(self).position(), old(self).current_line())),
            final(self).position() == next_lexeme(
                old(self).text(),
                old(self).position(),
                old(self).current_line(),
            ).end,
            final(self).current_line() == next_lexeme(
                old(self).text(),
                old(self).position(),
                old(self).current_line(),
            ).end_line,
    {
        self.skip_whitespace();
        self.start = self.current;
        let line = self.line;
        let c = self.advance();
        if Self::is_alpha(c) {
            return self.ident(line);
        }
        if Self::is_digit(c) {
            return self.number(line);
        }
        if c == '(' as u8 {
            return self.make_token(TokenType::LeftParen, line);
        } else if c == ')' as u8 {
            return self.make_token(TokenType::RightParen, line);
        } else if c == '{' as u8 {
            return self.make_token(TokenType::LeftBrace, line);
        } else if c == '}' as u8 {
            return self.make_token(TokenType::RightBrace, line);
        } else if c == ';' as u8 {
            return self.make_token(TokenType::Semicolon, line);
        } else if c == ',' as u8 {
            return self.make_token(TokenType::Comma, line);
        } else if c == '.' as u8 {
            return self.make_token(TokenType::Dot, line);
        } else if c == '-' as u8 {
            return self.make_token(TokenType::Minus, line);
        } else if c == '+' as u8 {
            return self.make_token(TokenType::Plus, line);
        } else if c == '/' as u8 {
            return self.make_token(TokenType::Slash, line);
        } else if c == '*' as u8 {
            return self.make_token(TokenType::Star, line);
        } else if c == '!' as u8 {
            let kind = if self.check('=' as u8) {
                TokenType::BangEqual
            } else {
                TokenType::Bang
            };
            return self.make_token(kind, line);
        } else if c == '=' as u8 {
            let kind = if self.check('=' as u8) {
                TokenType::EqualEqual
            } else {
                TokenType::Equal
            };
            return self.make_token(kind, line);
        } else if c == '<' as u8 {
            let kind = if self.check('=' as u8) {
                TokenType::LessEqual
            } else {
                TokenType::Less
            };
            return self.make_token(kind, line);
        } else if c == '>' as u8 {
            let kind = if self.check('=' as u8) {
                TokenType::GreaterEqual
            } else {
                TokenType::Greater
            };
            return self.make_token(kind, line);
        } else if c == '"' as u8 {
            return self.string(line);
        }
        if c == 0 {
            return self.make_token(TokenType::Eof, line);
        }
        proof {
            reveal_strlit("Unexpected character.");
        }
        self.error_token("Unexpected character.", line)
    }
}

} // verus!
