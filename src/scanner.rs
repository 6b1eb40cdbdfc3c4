use vstd::prelude::*;

verus! {

/// The kinds of token.
#[derive(Clone, Copy, Debug, PartialEq, Eq, Structural)]
pub enum TokenType {
    // Single-character tokens.
    LeftParen,
    RightParen,
    LeftBrace,
    RightBrace,
    Comma,
    Dot,
    Minus,
    Plus,
    Semicolon,
    Slash,
    Star,
    // One or two character tokens.
    Bang,
    BangEqual,
    Equal,
    EqualEqual,
    Greater,
    GreaterEqual,
    Less,
    LessEqual,
    // Literals.
    Identifier,
    String,
    Number,
    // Keywords.
    And,
    Class,
    Else,
    False,
    For,
    Fun,
    If,
    Nil,
    Or,
    Print,
    Return,
    Super,
    This,
    True,
    Var,
    While,
    // Sentinels.
    Error,
    EOF,
}

/// What an `Error` token reports.
#[derive(Clone, Copy, Debug, PartialEq, Eq, Structural)]
pub enum LexError {
    UnexpectedCharacter,
    UnterminatedString,
}

impl LexError {
    /// The text of the report.
    pub fn message(&self) -> (r: &'static str)
        ensures
            *self == LexError::UnexpectedCharacter ==> r@ == "Unexpected character"@,
            *self == LexError::UnterminatedString ==> r@ == "Unterminated string"@,
    {
        match self {
            LexError::UnexpectedCharacter => "Unexpected character",
            LexError::UnterminatedString => "Unterminated string",
        }
    }
}

/// A token: its kind, where its text starts in the source (in characters),
/// how many characters it spans, and its line. An `Error` token carries what
/// went wrong instead of a span.
#[derive(Clone, Copy, Debug, PartialEq, Eq, Structural)]
pub struct Token {
    pub token_type: TokenType,
    pub start: usize,
    pub length: usize,
    pub line: usize,
    pub error: Option<LexError>,
}

impl Token {
    /// The message of an `Error` token; empty for any other.
    pub fn message(&self) -> (r: &'static str)
        ensures
            self.error is None ==> r@ == ""@,
            self.error == Some(LexError::UnexpectedCharacter) ==> r@ == "Unexpected character"@,
            self.error == Some(LexError::UnterminatedString) ==> r@ == "Unterminated string"@,
    {
        match self.error {
            Some(e) => e.message(),
            None => "",
        }
    }
}

/// The character at `i`, or `'\0'` past either end.
pub open spec fn char_at(s: Seq<char>, i: int) -> char {
    if 0 <= i < s.len() {
        s[i]
    } else {
        '\0'
    }
}

pub open spec fn is_alpha_char(c: char) -> bool {
    ('a' <= c && c <= 'z') || ('A' <= c && c <= 'Z') || c == '_'
}

pub open spec fn is_digit_char(c: char) -> bool {
    '0' <= c && c <= '9'
}

/// Skips spaces, tabs, carriage returns, line feeds and `//` comments from
/// `pos`, counting line feeds; `in_comment` says that a comment is open.
/// Gives the position of the first character that is none of these, and the
/// line there.
pub open spec fn skip_trivia(s: Seq<char>, pos: int, line: int, in_comment: bool) -> (int, int)
    decreases s.len() - pos, if in_comment {
        1int
    } else {
        0int
    },
{
    if pos < 0 || pos >= s.len() {
        (pos, line)
    } else if in_comment {
        if s[pos] == '\n' {
            skip_trivia(s, pos, line, false)
        } else {
            skip_trivia(s, pos + 1, line, true)
        }
    } else {
        let c = s[pos];
        if c == ' ' || c == '\r' || c == '\t' {
            skip_trivia(s, pos + 1, line, false)
        } else if c == '\n' {
            skip_trivia(s, pos + 1, line + 1, false)
        } else if c == '/' && char_at(s, pos + 1) == '/' {
            skip_trivia(s, pos + 1, line, true)
        } else {
            (pos, line)
        }
    }
}

/// Where a run of letters, digits and underscores from `pos` ends.
pub open spec fn ident_end(s: Seq<char>, pos: int) -> int
    decreases s.len() - pos,
{
    if 0 <= pos < s.len() && (is_alpha_char(s[pos]) || is_digit_char(s[pos])) {
        ident_end(s, pos + 1)
    } else {
        pos
    }
}

/// Where a run of digits from `pos` ends.
pub open spec fn digits_end(s: Seq<char>, pos: int) -> int
    decreases s.len() - pos,
{
    if 0 <= pos < s.len() && is_digit_char(s[pos]) {
        digits_end(s, pos + 1)
    } else {
        pos
    }
}

/// Where a number whose first digit stands before `pos` ends: more digits,
/// then a fraction only where a digit follows the `.`.
pub open spec fn number_end(s: Seq<char>, pos: int) -> int {
    let d = digits_end(s, pos);
    if char_at(s, d) == '.' && is_digit_char(char_at(s, d + 1)) {
        digits_end(s, d + 1)
    } else {
        d
    }
}

/// Where the body of a string literal from `pos` ends (at its closing quote
/// or at the end of the source), and the line there.
pub open spec fn string_end(s: Seq<char>, pos: int, line: int) -> (int, int)
    decreases s.len() - pos,
{
    if pos < 0 || pos >= s.len() || s[pos] == '"' {
        (pos, line)
    } else if s[pos] == '\n' {
        string_end(s, pos + 1, line + 1)
    } else {
        string_end(s, pos + 1, line)
    }
}

/// The kind of a word: its keyword, or `Identifier`.
pub open spec fn keyword_kind(w: Seq<char>) -> TokenType {
    if w == seq!['a', 'n', 'd'] {
        TokenType::And
    } else if w == seq!['c', 'l', 'a', 's', 's'] {
        TokenType::Class
    } else if w == seq!['e', 'l', 's', 'e'] {
        TokenType::Else
    } else if w == seq!['f', 'a', 'l', 's', 'e'] {
        TokenType::False
    } else if w == seq!['f', 'o', 'r'] {
        TokenType::For
    } else if w == seq!['f', 'u', 'n'] {
        TokenType::Fun
    } else if w == seq!['i', 'f'] {
        TokenType::If
    } else if w == seq!['n', 'i', 'l'] {
        TokenType::Nil
    } else if w == seq!['o', 'r'] {
        TokenType::Or
    } else if w == seq!['p', 'r', 'i', 'n', 't'] {
        TokenType::Print
    } else if w == seq!['r', 'e', 't', 'u', 'r', 'n'] {
        TokenType::Return
    } else if w == seq!['s', 'u', 'p', 'e', 'r'] {
        TokenType::Super
    } else if w == seq!['t', 'h', 'i', 's'] {
        TokenType::This
    } else if w == seq!['t', 'r', 'u', 'e'] {
        TokenType::True
    } else if w == seq!['v', 'a', 'r'] {
        TokenType::Var
    } else if w == seq!['w', 'h', 'i', 'l', 'e'] {
        TokenType::While
    } else {
        TokenType::Identifier
    }
}

/// The token of a character that stands alone.
pub open spec fn one_char_kind(c: char) -> Option<TokenType> {
    if c == '(' {
        Some(TokenType::LeftParen)
    } else if c == ')' {
        Some(TokenType::RightParen)
    } else if c == '{' {
        Some(TokenType::LeftBrace)
    } else if c == '}' {
        Some(TokenType::RightBrace)
    } else if c == ';' {
        Some(TokenType::Semicolon)
    } else if c == ',' {
        Some(TokenType::Comma)
    } else if c == '.' {
        Some(TokenType::Dot)
    } else if c == '-' {
        Some(TokenType::Minus)
    } else if c == '+' {
        Some(TokenType::Plus)
    } else if c == '/' {
        Some(TokenType::Slash)
    } else if c == '*' {
        Some(TokenType::Star)
    } else if c == '!' {
        Some(TokenType::Bang)
    } else if c == '=' {
        Some(TokenType::Equal)
    } else if c == '<' {
        Some(TokenType::Less)
    } else if c == '>' {
        Some(TokenType::Greater)
    } else {
        None
    }
}

/// The token of a character followed by `=`, where the pair is one token.
pub open spec fn with_equal_kind(c: char) -> Option<TokenType> {
    if c == '!' {
        Some(TokenType::BangEqual)
    } else if c == '=' {
        Some(TokenType::EqualEqual)
    } else if c == '<' {
        Some(TokenType::LessEqual)
    } else if c == '>' {
        Some(TokenType::GreaterEqual)
    } else {
        None
    }
}

/// A token that spans `start .. end` of the source.
pub open spec fn span_token(kind: TokenType, start: int, end: int, line: int) -> Token {
    Token {
        token_type: kind,
        start: start as usize,
        length: (end - start) as usize,
        line: line as usize,
        error: None,
    }
}

/// An `Error` token.
pub open spec fn error_token_at(error: LexError, line: int) -> Token {
    Token {
        token_type: TokenType::Error,
        start: 0,
        length: 0,
        line: line as usize,
        error: Some(error),
    }
}

/// Scanning one token of `s` from `pos` on line `line`: the token, the
/// position after it, and the line there.
pub open spec fn scan_spec(s: Seq<char>, pos: int, line: int) -> (Token, int, int) {
    let (p, l) = skip_trivia(s, pos, line, false);
    if p >= s.len() {
        (span_token(TokenType::EOF, p, p, l), p, l)
    } else {
        let c = s[p];
        if is_alpha_char(c) {
            let e = ident_end(s, p + 1);
            (span_token(keyword_kind(s.subrange(p, e)), p, e, l), e, l)
        } else if is_digit_char(c) {
            let e = number_end(s, p + 1);
            (span_token(TokenType::Number, p, e, l), e, l)
        } else if c == '"' {
            let (e, l2) = string_end(s, p + 1, l);
            if e >= s.len() {
                (error_token_at(LexError::UnterminatedString, l2), e, l2)
            } else {
                (span_token(TokenType::String, p, e + 1, l2), e + 1, l2)
            }
        } else if with_equal_kind(c) is Some && char_at(s, p + 1) == '=' {
            (span_token(with_equal_kind(c)->0, p, p + 2, l), p + 2, l)
        } else if one_char_kind(c) is Some {
            (span_token(one_char_kind(c)->0, p, p + 1, l), p + 1, l)
        } else {
            (error_token_at(LexError::UnexpectedCharacter, l), p + 1, l)
        }
    }
}

proof fn lemma_skip_trivia(s: Seq<char>, pos: int, line: int, in_comment: bool)
    requires
        0 <= pos <= s.len(),
    ensures
        pos <= skip_trivia(s, pos, line, in_comment).0 <= s.len(),
        line <= skip_trivia(s, pos, line, in_comment).1,
        skip_trivia(s, pos, line, in_comment).1 - line <= skip_trivia(s, pos, line, in_comment).0
            - pos,
    decreases s.len() - pos, if in_comment {
        1int
    } else {
        0int
    },
{
    if pos < s.len() {
        if in_comment {
            if s[pos] == '\n' {
                lemma_skip_trivia(s, pos, line, false);
            } else {
                lemma_skip_trivia(s, pos + 1, line, true);
            }
        } else {
            let c = s[pos];
            if c == ' ' || c == '\r' || c == '\t' {
                lemma_skip_trivia(s, pos + 1, line, false);
            } else if c == '\n' {
                lemma_skip_trivia(s, pos + 1, line + 1, false);
            } else if c == '/' && char_at(s, pos + 1) == '/' {
                lemma_skip_trivia(s, pos + 1, line, true);
            }
        }
    }
}

proof fn lemma_ident_end(s: Seq<char>, pos: int)
    requires
        0 <= pos <= s.len(),
    ensures
        pos <= ident_end(s, pos) <= s.len(),
    decreases s.len() - pos,
{
    if pos < s.len() && (is_alpha_char(s[pos]) || is_digit_char(s[pos])) {
        lemma_ident_end(s, pos + 1);
    }
}

proof fn lemma_digits_end(s: Seq<char>, pos: int)
    requires
        0 <= pos <= s.len(),
    ensures
        pos <= digits_end(s, pos) <= s.len(),
    decreases s.len() - pos,
{
    if pos < s.len() && is_digit_char(s[pos]) {
        lemma_digits_end(s, pos + 1);
    }
}

proof fn lemma_number_end(s: Seq<char>, pos: int)
    requires
        0 <= pos <= s.len(),
    ensures
        pos <= number_end(s, pos) <= s.len(),
{
    lemma_digits_end(s, pos);
    let d = digits_end(s, pos);
    if char_at(s, d) == '.' && is_digit_char(char_at(s, d + 1)) {
        lemma_digits_end(s, d + 1);
    }
}

proof fn lemma_string_end(s: Seq<char>, pos: int, line: int)
    requires
        0 <= pos <= s.len(),
    ensures
        pos <= string_end(s, pos, line).0 <= s.len(),
        line <= string_end(s, pos, line).1,
        string_end(s, pos, line).1 - line <= string_end(s, pos, line).0 - pos,
        string_end(s, pos, line).0 < s.len() ==> s[string_end(s, pos, line).0] == '"',
    decreases s.len() - pos,
{
    if pos < s.len() && s[pos] != '"' {
        if s[pos] == '\n' {
            lemma_string_end(s, pos + 1, line + 1);
        } else {
            lemma_string_end(s, pos + 1, line);
        }
    }
}

/// What scanning one token does to the position and the line: the position
/// never moves back and stays within the source, a token other than `EOF`
/// consumes at least one character, `EOF` comes only at the end, the line
/// grows by at most the characters consumed, and a token other than `Error`
/// spans exactly the characters from its start to the new position.
pub proof fn lemma_scan_bounds(s: Seq<char>, pos: int, line: int)
    requires
        0 <= pos <= s.len(),
        s.len() < usize::MAX,
        1 <= line <= pos + 1,
    ensures
        ({
            let (t, p, l) = scan_spec(s, pos, line);
            &&& pos <= p <= s.len()
            &&& line <= l <= p + 1
            &&& l - line <= p - pos
            &&& t.line == l
            &&& (t.token_type == TokenType::EOF ==> p == s.len() && t.start == s.len()
                && t.length == 0)
            &&& (t.token_type != TokenType::EOF ==> pos < p)
            &&& (t.token_type != TokenType::Error ==> pos <= t.start && t.start + t.length == p
                && t.error is None)
            &&& (t.token_type == TokenType::Error ==> t.error is Some)
        }),
{
    lemma_skip_trivia(s, pos, line, false);
    let (p, l) = skip_trivia(s, pos, line, false);
    if p < s.len() {
        let c = s[p];
        if is_alpha_char(c) {
            lemma_ident_end(s, p + 1);
        } else if is_digit_char(c) {
            lemma_number_end(s, p + 1);
        } else if c == '"' {
            lemma_string_end(s, p + 1, l);
        }
    }
}

/// The position and line that scanning `s` from its start reaches after `n`
/// tokens.
pub open spec fn scan_state(s: Seq<char>, n: nat) -> (int, int)
    decreases n,
{
    if n == 0 {
        (0, 1)
    } else {
        let (p, l) = scan_state(s, (n - 1) as nat);
        let (_, p2, l2) = scan_spec(s, p, l);
        (p2, l2)
    }
}

/// The first `n` tokens of `s`: a function of the text alone.
pub open spec fn token_stream(s: Seq<char>, n: nat) -> Seq<Token>
    decreases n,
{
    if n == 0 {
        Seq::empty()
    } else {
        let (p, l) = scan_state(s, (n - 1) as nat);
        token_stream(s, (n - 1) as nat).push(scan_spec(s, p, l).0)
    }
}

/// Once scanning has reached `EOF`, every further scan gives the same `EOF`
/// token and stays where it is.
pub proof fn lemma_eof_repeats(s: Seq<char>, pos: int, line: int)
    requires
        0 <= pos <= s.len(),
        s.len() < usize::MAX,
        1 <= line <= pos + 1,
        scan_spec(s, pos, line).0.token_type == TokenType::EOF,
    ensures
        ({
            let (t, p, l) = scan_spec(s, pos, line);
            scan_spec(s, p, l) == (t, p, l)
        }),
{
    lemma_scan_bounds(s, pos, line);
}

/// The `k`-th token of `s` (from 0).
pub open spec fn nth_token(s: Seq<char>, k: nat) -> Token {
    scan_spec(s, scan_state(s, k).0, scan_state(s, k).1).0
}

/// Where scanning stands after any number of tokens: within the text, on a
/// line no further than one past the characters consumed.
pub proof fn lemma_scan_state(s: Seq<char>, k: nat)
    requires
        s.len() < usize::MAX,
    ensures
        0 <= scan_state(s, k).0 <= s.len(),
        1 <= scan_state(s, k).1 <= scan_state(s, k).0 + 1,
    decreases k,
{
    if k > 0 {
        lemma_scan_state(s, (k - 1) as nat);
        let (p, l) = scan_state(s, (k - 1) as nat);
        lemma_scan_bounds(s, p, l);
    }
}

/// What the `k`-th token does to the position, as `lemma_scan_bounds` says.
pub proof fn lemma_nth_token(s: Seq<char>, k: nat)
    requires
        s.len() < usize::MAX,
    ensures
        scan_state(s, k + 1).0 >= scan_state(s, k).0,
        nth_token(s, k).token_type != TokenType::EOF ==> scan_state(s, k + 1).0 > scan_state(
            s,
            k,
        ).0,
        nth_token(s, k).token_type == TokenType::EOF ==> scan_state(s, k + 1).0 == s.len(),
        nth_token(s, k).token_type != TokenType::Error ==> nth_token(s, k).start + nth_token(
            s,
            k,
        ).length <= s.len(),
        token_stream(s, k + 1) == token_stream(s, k).push(nth_token(s, k)),
{
    lemma_scan_state(s, k);
    lemma_scan_bounds(s, scan_state(s, k).0, scan_state(s, k).1);
}

/// Turns source text into tokens, one per call of `scan_token`.
pub struct Scanner {
    source: String,
    chars: Vec<char>,
    start: usize,
    current: usize,
    line: usize,
    scanned: Ghost<Seq<Token>>,
}

impl Scanner {
    /// The source text, as characters.
    pub closed spec fn text(&self) -> Seq<char> {
        self.chars@
    }

    /// The position of the next character to read.
    pub closed spec fn position(&self) -> int {
        self.current as int
    }

    /// The line of the next character to read.
    pub closed spec fn line_number(&self) -> int {
        self.line as int
    }

    /// The tokens scanned so far.
    pub closed spec fn history(&self) -> Seq<Token> {
        self.scanned@
    }

    /// Well formed, and at the point that scanning the text from its start
    /// reaches after the tokens of its history.
    pub closed spec fn wf(&self) -> bool {
        &&& self.inv()
        &&& (self.current as int, self.line as int) == scan_state(
            self.chars@,
            self.scanned@.len(),
        )
        &&& self.scanned@ == token_stream(self.chars@, self.scanned@.len())
    }

    closed spec fn inv(&self) -> bool {
        &&& self.chars@ == self.source@
        &&& self.start <= self.current <= self.chars@.len()
        &&& self.chars@.len() < usize::MAX
        &&& 1 <= self.line <= self.current + 1
    }

    /// What a well-formed scanner's state tells of its position and line.
    pub proof fn lemma_bounds(&self)
        requires
            self.wf(),
        ensures
            0 <= self.position() <= self.text().len(),
            self.text().len() < usize::MAX,
            1 <= self.line_number() <= self.position() + 1,
            (self.position(), self.line_number()) == scan_state(self.text(), self.history().len()),
            self.history() == token_stream(self.text(), self.history().len()),
    {
    }

    /// A scanner at the start of `source`, on line 1.
    pub fn new(source: String) -> (r: Scanner)
        requires
            source@.len() < usize::MAX,
        ensures
            r.wf(),
            r.history() == Seq::<Token>::empty(),
            r.text() == source@,
            r.position() == 0,
            r.line_number() == 1,
    {
        let len = source.as_str().unicode_len();
        let mut chars: Vec<char> = Vec::new();
        let mut i: usize = 0;
        while i < len
            invariant
                len == source@.len(),
                i <= len,
                chars@ == source@.take(i as int),
            decreases len - i,
        {
            let c = source.as_str().get_char(i);
            chars.push(c);
            i = i + 1;
            assert(chars@ =~= source@.take(i as int));
        }
        assert(chars@ =~= source@);
        Scanner { source, chars, start: 0, current: 0, line: 1, scanned: Ghost(Seq::empty()) }
    }

    /// The text of a token: the characters that it spans.
    pub fn lexeme(&self, token: &Token) -> (r: &str)
        requires
            self.wf(),
            token.start + token.length <= self.text().len(),
        ensures
            r@ == self.text().subrange(token.start as int, token.start + token.length),
    {
        self.source.as_str().substring_char(token.start, token.start + token.length)
    }

    /// Scans the next token. After the end of the source every call gives an
    /// `EOF` token on the last line.
    pub fn scan_token(&mut self) -> (r: Token)
        requires
            old(self).wf(),
        ensures
            final(self).wf(),
            final(self).history() == old(self).history().push(r),
            final(self).history() == token_stream(
                final(self).text(),
                final(self).history().len(),
            ),
            final(self).text() == old(self).text(),
            (r, final(self).position(), final(self).line_number()) == scan_spec(
                old(self).text(),
                old(self).position(),
                old(self).line_number(),
            ),
            r.token_type != TokenType::Error ==> r.start + r.length <= final(self).text().len(),
    {
        let r = self.scan_next();
        self.scanned = Ghost(self.scanned@.push(r));
        proof {
            let n = self.scanned@.len();
            assert(self.scanned@.subrange(0, n - 1) =~= old(self).scanned@);
        }
        r
    }

    fn scan_next(&mut self) -> (r: Token)
        requires
            old(self).inv(),
        ensures
            final(self).inv(),
            final(self).chars@ == old(self).chars@,
            final(self).scanned == old(self).scanned,
            (r, final(self).current as int, final(self).line as int) == scan_spec(
                old(self).chars@,
                old(self).current as int,
                old(self).line as int,
            ),
            r.token_type != TokenType::Error ==> r.start + r.length <= final(self).chars@.len(),
    {
        proof {
            lemma_scan_bounds(self.chars@, self.current as int, self.line as int);
        }
        self.skip_whitespace();
        self.start = self.current;
        if self.is_at_end() {
            return self.make_token(TokenType::EOF);
        }
        let c = self.advance();
        if self.is_alpha(c) {
            return self.identifier();
        }
        if self.is_digit(c) {
            return self.number();
        }
        if c == '"' {
            return self.string();
        }
        if c == '!' || c == '=' || c == '<' || c == '>' {
            if self.match_next('=') {
                let kind = if c == '!' {
                    TokenType::BangEqual
                } else if c == '=' {
                    TokenType::EqualEqual
                } else if c == '<' {
                    TokenType::LessEqual
                } else {
                    TokenType::GreaterEqual
                };
                return self.make_token(kind);
            }
        }
        match c {
            '(' => self.make_token(TokenType::LeftParen),
            ')' => self.make_token(TokenType::RightParen),
            '{' => self.make_token(TokenType::LeftBrace),
            '}' => self.make_token(TokenType::RightBrace),
            ';' => self.make_token(TokenType::Semicolon),
            ',' => self.make_token(TokenType::Comma),
            '.' => self.make_token(TokenType::Dot),
            '-' => self.make_token(TokenType::Minus),
            '+' => self.make_token(TokenType::Plus),
            '/' => self.make_token(TokenType::Slash),
            '*' => self.make_token(TokenType::Star),
            '!' => self.make_token(TokenType::Bang),
            '=' => self.make_token(TokenType::Equal),
            '<' => self.make_token(TokenType::Less),
            '>' => self.make_token(TokenType::Greater),
            _ => self.error_token(LexError::UnexpectedCharacter),
        }
    }

    fn is_at_end(&self) -> (r: bool)
        requires
            self.inv(),
        ensures
            r == (self.current == self.chars@.len()),
    {
        self.current >= self.chars.len()
    }

    fn make_token(&self, token_type: TokenType) -> (r: Token)
        requires
            self.inv(),
        ensures
            r == span_token(token_type, self.start as int, self.current as int, self.line as int),
    {
        Token {
            token_type,
            start: self.start,
            length: self.current - self.start,
            line: self.line,
            error: None,
        }
    }

    fn error_token(&self, error: LexError) -> (r: Token)
        ensures
            r == error_token_at(error, self.line as int),
    {
        Token {
            token_type: TokenType::Error,
            start: 0,
            length: 0,
            line: self.line,
            error: Some(error),
        }
    }

    fn skip_whitespace(&mut self)
        requires
            old(self).inv(),
        ensures
            final(self).inv(),
            final(self).chars@ == old(self).chars@,
            final(self).scanned == old(self).scanned,
            final(self).source@ == old(self).source@,
            (final(self).current as int, final(self).line as int) == skip_trivia(
                old(self).chars@,
                old(self).current as int,
                old(self).line as int,
                false,
            ),
    {
        let ghost s = self.chars@;
        let ghost target = skip_trivia(s, self.current as int, self.line as int, false);
        loop
            invariant
                self.inv(),
                self.chars@ == s,
                self.scanned == old(self).scanned,
                self.source@ == old(self).source@,
                skip_trivia(s, self.current as int, self.line as int, false) == target,
            ensures
                self.inv(),
                self.chars@ == s,
                self.scanned == old(self).scanned,
                self.source@ == old(self).source@,
                (self.current as int, self.line as int) == target,
            decreases s.len() - self.current,
        {
            let c = self.peek();
            if c == ' ' || c == '\r' || c == '\t' {
                self.advance();
            } else if c == '\n' {
                self.advance();
                self.line = self.line + 1;
            } else if c == '/' && self.peek_next() == '/' {
                let ghost before = self.current;
                self.advance();
                while !self.is_at_end() && self.peek() != '\n'
                    invariant
                        self.current > before,
                        self.inv(),
                        self.chars@ == s,
                        self.scanned == old(self).scanned,
                        self.source@ == old(self).source@,
                        skip_trivia(s, self.current as int, self.line as int, true) == target,
                    decreases s.len() - self.current,
                {
                    self.advance();
                }
            } else {
                break ;
            }
        }
    }

    fn is_alpha(&self, c: char) -> (r: bool)
        ensures
            r == is_alpha_char(c),
    {
        ('a' <= c && c <= 'z') || ('A' <= c && c <= 'Z') || c == '_'
    }

    fn is_digit(&self, c: char) -> (r: bool)
        ensures
            r == is_digit_char(c),
    {
        '0' <= c && c <= '9'
    }

    fn identifier(&mut self) -> (r: Token)
        requires
            old(self).inv(),
            old(self).start < old(self).current,
            is_alpha_char(old(self).chars@[old(self).start as int]),
        ensures
            final(self).inv(),
            final(self).chars@ == old(self).chars@,
            final(self).scanned == old(self).scanned,
            final(self).source@ == old(self).source@,
            final(self).line == old(self).line,
            final(self).current == ident_end(old(self).chars@, old(self).current as int),
            r == span_token(
                keyword_kind(
                    old(self).chars@.subrange(old(self).start as int, final(self).current as int),
                ),
                old(self).start as int,
                final(self).current as int,
                old(self).line as int,
            ),
    {
        let ghost s = self.chars@;
        let ghost target = ident_end(s, self.current as int);
        while self.is_alpha(self.peek()) || self.is_digit(self.peek())
            invariant
                self.inv(),
                self.chars@ == s,
                self.scanned == old(self).scanned,
                self.source@ == old(self).source@,
                self.line == old(self).line,
                self.start == old(self).start,
                old(self).current <= self.current,
                ident_end(s, self.current as int) == target,
            decreases s.len() - self.current,
        {
            self.advance();
        }
        let kind = self.identifier_type();
        self.make_token(kind)
    }

    fn identifier_type(&self) -> (r: TokenType)
        requires
            self.inv(),
            self.start < self.current,
        ensures
            r == keyword_kind(self.chars@.subrange(self.start as int, self.current as int)),
    {
        let ghost w = self.chars@.subrange(self.start as int, self.current as int);
        proof {
            reveal_strlit("nd");
            reveal_strlit("lass");
            reveal_strlit("lse");
            reveal_strlit("f");
            reveal_strlit("il");
            reveal_strlit("r");
            reveal_strlit("rint");
            reveal_strlit("eturn");
            reveal_strlit("uper");
            reveal_strlit("ar");
            reveal_strlit("hile");
            reveal_strlit("n");
            reveal_strlit("is");
            reveal_strlit("ue");
        }
        proof {
            lemma_keyword_kind_by_letters(w);
        }
        let c = self.get_char_at_idx(self.start);
        assert(c == w[0]);
        match c {
            'a' => {
                proof {
                    lemma_keyword_branch(w, 1, seq!['a', 'n', 'd'], "nd"@);
                }
                self.check_keyword(1, "nd", TokenType::And)
            },
            'c' => {
                proof {
                    lemma_keyword_branch(w, 1, seq!['c', 'l', 'a', 's', 's'], "lass"@);
                }
                self.check_keyword(1, "lass", TokenType::Class)
            },
            'e' => {
                proof {
                    lemma_keyword_branch(w, 1, seq!['e', 'l', 's', 'e'], "lse"@);
                }
                self.check_keyword(1, "lse", TokenType::Else)
            },
            'i' => {
                proof {
                    lemma_keyword_branch(w, 1, seq!['i', 'f'], "f"@);
                }
                self.check_keyword(1, "f", TokenType::If)
            },
            'n' => {
                proof {
                    lemma_keyword_branch(w, 1, seq!['n', 'i', 'l'], "il"@);
                }
                self.check_keyword(1, "il", TokenType::Nil)
            },
            'o' => {
                proof {
                    lemma_keyword_branch(w, 1, seq!['o', 'r'], "r"@);
                }
                self.check_keyword(1, "r", TokenType::Or)
            },
            'p' => {
                proof {
                    lemma_keyword_branch(w, 1, seq!['p', 'r', 'i', 'n', 't'], "rint"@);
                }
                self.check_keyword(1, "rint", TokenType::Print)
            },
            'r' => {
                proof {
                    lemma_keyword_branch(w, 1, seq!['r', 'e', 't', 'u', 'r', 'n'], "eturn"@);
                }
                self.check_keyword(1, "eturn", TokenType::Return)
            },
            's' => {
                proof {
                    lemma_keyword_branch(w, 1, seq!['s', 'u', 'p', 'e', 'r'], "uper"@);
                }
                self.check_keyword(1, "uper", TokenType::Super)
            },
            'v' => {
                proof {
                    lemma_keyword_branch(w, 1, seq!['v', 'a', 'r'], "ar"@);
                }
                self.check_keyword(1, "ar", TokenType::Var)
            },
            'w' => {
                proof {
                    lemma_keyword_branch(w, 1, seq!['w', 'h', 'i', 'l', 'e'], "hile"@);
                }
                self.check_keyword(1, "hile", TokenType::While)
            },
            'f' => {
                if self.current - self.start > 1 {
                    let c1 = self.get_char_at_idx(self.start + 1);
                    assert(c1 == w[1]);
                    match c1 {
                        'a' => {
                            proof {
                                lemma_keyword_branch(w, 2, seq!['f', 'a', 'l', 's', 'e'], "lse"@);
                            }
                            self.check_keyword(2, "lse", TokenType::False)
                        },
                        'o' => {
                            proof {
                                lemma_keyword_branch(w, 2, seq!['f', 'o', 'r'], "r"@);
                            }
                            self.check_keyword(2, "r", TokenType::For)
                        },
                        'u' => {
                            proof {
                                lemma_keyword_branch(w, 2, seq!['f', 'u', 'n'], "n"@);
                            }
                            self.check_keyword(2, "n", TokenType::Fun)
                        },
                        _ => TokenType::Identifier,
                    }
                } else {
                    TokenType::Identifier
                }
            },
            't' => {
                if self.current - self.start > 1 {
                    let c1 = self.get_char_at_idx(self.start + 1);
                    assert(c1 == w[1]);
                    match c1 {
                        'h' => {
                            proof {
                                lemma_keyword_branch(w, 2, seq!['t', 'h', 'i', 's'], "is"@);
                            }
                            self.check_keyword(2, "is", TokenType::This)
                        },
                        'r' => {
                            proof {
                                lemma_keyword_branch(w, 2, seq!['t', 'r', 'u', 'e'], "ue"@);
                            }
                            self.check_keyword(2, "ue", TokenType::True)
                        },
                        _ => TokenType::Identifier,
                    }
                } else {
                    TokenType::Identifier
                }
            },
            _ => TokenType::Identifier,
        }
    }

    /// `token_type` where the current word, past its first `start`
    /// characters, is exactly `rest`; `Identifier` otherwise.
    fn check_keyword(&self, start: usize, rest: &str, token_type: TokenType) -> (r: TokenType)
        requires
            self.inv(),
            self.start + start <= self.current,
        ensures
            r == (if self.chars@.subrange(self.start as int, self.current as int).subrange(
                start as int,
                self.current - self.start,
            ) == rest@ {
                token_type
            } else {
                TokenType::Identifier
            }),
    {
        let length = self.current - self.start - start;
        assert(self.chars@.subrange(self.start as int, self.current as int).subrange(
            start as int,
            self.current - self.start,
        ) =~= self.chars@.subrange(self.start + start, self.current as int));
        if cmp(&self.chars, self.start + start, length, rest) {
            token_type
        } else {
            TokenType::Identifier
        }
    }

    fn number(&mut self) -> (r: Token)
        requires
            old(self).inv(),
            old(self).start < old(self).current,
        ensures
            final(self).inv(),
            final(self).chars@ == old(self).chars@,
            final(self).scanned == old(self).scanned,
            final(self).source@ == old(self).source@,
            final(self).line == old(self).line,
            final(self).current == number_end(old(self).chars@, old(self).current as int),
            r == span_token(
                TokenType::Number,
                old(self).start as int,
                final(self).current as int,
                old(self).line as int,
            ),
    {
        let ghost s = self.chars@;
        let ghost d = digits_end(s, self.current as int);
        while self.is_digit(self.peek())
            invariant
                self.inv(),
                self.chars@ == s,
                self.scanned == old(self).scanned,
                self.source@ == old(self).source@,
                self.line == old(self).line,
                self.start == old(self).start,
                digits_end(s, self.current as int) == d,
            decreases s.len() - self.current,
        {
            self.advance();
        }
        if self.peek() == '.' && self.is_digit(self.peek_next()) {
            self.advance();
            let ghost e = digits_end(s, self.current as int);
            while self.is_digit(self.peek())
                invariant
                    self.inv(),
                    self.chars@ == s,
                    self.scanned == old(self).scanned,
                    self.source@ == old(self).source@,
                    self.line == old(self).line,
                    self.start == old(self).start,
                    digits_end(s, self.current as int) == e,
                decreases s.len() - self.current,
            {
                self.advance();
            }
        }
        self.make_token(TokenType::Number)
    }

    fn string(&mut self) -> (r: Token)
        requires
            old(self).inv(),
            old(self).start < old(self).current,
        ensures
            final(self).inv(),
            final(self).chars@ == old(self).chars@,
            final(self).scanned == old(self).scanned,
            final(self).source@ == old(self).source@,
            ({
                let (e, l) = string_end(
                    old(self).chars@,
                    old(self).current as int,
                    old(self).line as int,
                );
                if e >= old(self).chars@.len() {
                    &&& r == error_token_at(LexError::UnterminatedString, l)
                    &&& final(self).current == e
                    &&& final(self).line == l
                } else {
                    &&& r == span_token(TokenType::String, old(self).start as int, e + 1, l)
                    &&& final(self).current == e + 1
                    &&& final(self).line == l
                }
            }),
    {
        let ghost s = self.chars@;
        let ghost target = string_end(s, self.current as int, self.line as int);
        while self.peek() != '"' && !self.is_at_end()
            invariant
                self.inv(),
                self.chars@ == s,
                self.scanned == old(self).scanned,
                self.source@ == old(self).source@,
                self.start == old(self).start,
                string_end(s, self.current as int, self.line as int) == target,
            decreases s.len() - self.current,
        {
            let newline = self.peek() == '\n';
            self.advance();
            if newline {
                self.line = self.line + 1;
            }
        }
        if self.is_at_end() {
            return self.error_token(LexError::UnterminatedString);
        }
        self.advance();
        self.make_token(TokenType::String)
    }

    fn advance(&mut self) -> (r: char)
        requires
            old(self).inv(),
            old(self).current < old(self).chars@.len(),
        ensures
            final(self).inv(),
            r == old(self).chars@[old(self).current as int],
            final(self).current == old(self).current + 1,
            final(self).chars@ == old(self).chars@,
            final(self).scanned == old(self).scanned,
            final(self).source@ == old(self).source@,
            final(self).start == old(self).start,
            final(self).line == old(self).line,
    {
        self.current = self.current + 1;
        self.chars[self.current - 1]
    }

    fn peek(&self) -> (r: char)
        requires
            self.inv(),
        ensures
            r == char_at(self.chars@, self.current as int),
    {
        self.get_char_at_idx(self.current)
    }

    fn peek_next(&self) -> (r: char)
        requires
            self.inv(),
        ensures
            r == char_at(self.chars@, self.current + 1),
    {
        self.get_char_at_idx(self.current + 1)
    }

    fn get_char_at_idx(&self, idx: usize) -> (r: char)
        ensures
            r == char_at(self.chars@, idx as int),
    {
        if idx < self.chars.len() {
            self.chars[idx]
        } else {
            '\0'
        }
    }

    fn match_next(&mut self, expected: char) -> (r: bool)
        requires
            old(self).inv(),
        ensures
            final(self).inv(),
            r == (old(self).current < old(self).chars@.len()
                && old(self).chars@[old(self).current as int] == expected),
            final(self).current == old(self).current + if r {
                1int
            } else {
                0int
            },
            final(self).chars@ == old(self).chars@,
            final(self).scanned == old(self).scanned,
            final(self).source@ == old(self).source@,
            final(self).start == old(self).start,
            final(self).line == old(self).line,
    {
        if self.is_at_end() {
            return false;
        }
        if self.peek() == expected {
            self.current = self.current + 1;
            return true;
        }
        false
    }
}

/// The first letters of the keywords, and the second where the first is shared.
proof fn lemma_keyword_letters()
    ensures
        seq!['a', 'n', 'd'][0] == 'a',
        seq!['c', 'l', 'a', 's', 's'][0] == 'c',
        seq!['e', 'l', 's', 'e'][0] == 'e',
        seq!['f', 'a', 'l', 's', 'e'][0] == 'f',
        seq!['f', 'o', 'r'][0] == 'f',
        seq!['f', 'u', 'n'][0] == 'f',
        seq!['i', 'f'][0] == 'i',
        seq!['n', 'i', 'l'][0] == 'n',
        seq!['o', 'r'][0] == 'o',
        seq!['p', 'r', 'i', 'n', 't'][0] == 'p',
        seq!['r', 'e', 't', 'u', 'r', 'n'][0] == 'r',
        seq!['s', 'u', 'p', 'e', 'r'][0] == 's',
        seq!['t', 'h', 'i', 's'][0] == 't',
        seq!['t', 'r', 'u', 'e'][0] == 't',
        seq!['v', 'a', 'r'][0] == 'v',
        seq!['w', 'h', 'i', 'l', 'e'][0] == 'w',
        seq!['f', 'a', 'l', 's', 'e'][1] == 'a',
        seq!['f', 'o', 'r'][1] == 'o',
        seq!['f', 'u', 'n'][1] == 'u',
        seq!['t', 'h', 'i', 's'][1] == 'h',
        seq!['t', 'r', 'u', 'e'][1] == 'r',
{
}

/// The kind of a word, by its first letter (and its second, after `f` or `t`).
#[verifier::spinoff_prover]
proof fn lemma_keyword_kind_by_letters(w: Seq<char>)
    requires
        w.len() >= 1,
    ensures
        w[0] == 'a' ==> keyword_kind(w) == (if w == seq!['a', 'n', 'd'] {
            TokenType::And
        } else {
            TokenType::Identifier
        }),
        w[0] == 'c' ==> keyword_kind(w) == (if w == seq!['c', 'l', 'a', 's', 's'] {
            TokenType::Class
        } else {
            TokenType::Identifier
        }),
        w[0] == 'e' ==> keyword_kind(w) == (if w == seq!['e', 'l', 's', 'e'] {
            TokenType::Else
        } else {
            TokenType::Identifier
        }),
        w[0] == 'f' && w.len() >= 2 && w[1] == 'a'
            ==> keyword_kind(w) == (if w == seq!['f', 'a', 'l', 's', 'e'] {
            TokenType::False
        } else {
            TokenType::Identifier
        }),
        w[0] == 'f' && w.len() >= 2 && w[1] == 'o'
            ==> keyword_kind(w) == (if w == seq!['f', 'o', 'r'] {
            TokenType::For
        } else {
            TokenType::Identifier
        }),
        w[0] == 'f' && w.len() >= 2 && w[1] == 'u'
            ==> keyword_kind(w) == (if w == seq!['f', 'u', 'n'] {
            TokenType::Fun
        } else {
            TokenType::Identifier
        }),
        w[0] == 'i' ==> keyword_kind(w) == (if w == seq!['i', 'f'] {
            TokenType::If
        } else {
            TokenType::Identifier
        }),
        w[0] == 'n' ==> keyword_kind(w) == (if w == seq!['n', 'i', 'l'] {
            TokenType::Nil
        } else {
            TokenType::Identifier
        }),
        w[0] == 'o' ==> keyword_kind(w) == (if w == seq!['o', 'r'] {
            TokenType::Or
        } else {
            TokenType::Identifier
        }),
        w[0] == 'p' ==> keyword_kind(w) == (if w == seq!['p', 'r', 'i', 'n', 't'] {
            TokenType::Print
        } else {
            TokenType::Identifier
        }),
        w[0] == 'r' ==> keyword_kind(w) == (if w == seq!['r', 'e', 't', 'u', 'r', 'n'] {
            TokenType::Return
        } else {
            TokenType::Identifier
        }),
        w[0] == 's' ==> keyword_kind(w) == (if w == seq!['s', 'u', 'p', 'e', 'r'] {
            TokenType::Super
        } else {
            TokenType::Identifier
        }),
        w[0] == 't' && w.len() >= 2 && w[1] == 'h'
            ==> keyword_kind(w) == (if w == seq!['t', 'h', 'i', 's'] {
            TokenType::This
        } else {
            TokenType::Identifier
        }),
        w[0] == 't' && w.len() >= 2 && w[1] == 'r'
            ==> keyword_kind(w) == (if w == seq!['t', 'r', 'u', 'e'] {
            TokenType::True
        } else {
            TokenType::Identifier
        }),
        w[0] == 'v' ==> keyword_kind(w) == (if w == seq!['v', 'a', 'r'] {
            TokenType::Var
        } else {
            TokenType::Identifier
        }),
        w[0] == 'w' ==> keyword_kind(w) == (if w == seq!['w', 'h', 'i', 'l', 'e'] {
            TokenType::While
        } else {
            TokenType::Identifier
        }),
        w[0] != 'a' && w[0] != 'c' && w[0] != 'e' && w[0] != 'f' && w[0] != 'i' && w[0] != 'n'
            && w[0] != 'o' && w[0] != 'p' && w[0] != 'r' && w[0] != 's' && w[0] != 't' && w[0]
            != 'v' && w[0] != 'w' ==> keyword_kind(w) == TokenType::Identifier,
        w[0] == 'f' && (w.len() < 2 || (w[1] != 'a' && w[1] != 'o' && w[1] != 'u'))
            ==> keyword_kind(w) == TokenType::Identifier,
        w[0] == 't' && (w.len() < 2 || (w[1] != 'h' && w[1] != 'r')) ==> keyword_kind(w)
            == TokenType::Identifier,
{
    lemma_keyword_letters();
}

proof fn lemma_keyword_branch(w: Seq<char>, k: int, kw: Seq<char>, rest: Seq<char>)
    requires
        1 <= k <= 2,
        k <= w.len(),
        k <= kw.len(),
        forall|j: int| 0 <= j < k ==> w[j] == kw[j],
        rest =~= kw.subrange(k, kw.len() as int),
    ensures
        (w.subrange(k, w.len() as int) == rest) == (w == kw),
{
    if w.subrange(k, w.len() as int) == rest {
        assert(rest == kw.subrange(k, kw.len() as int));
        assert(w.subrange(k, w.len() as int).len() == w.len() - k);
        assert(w.len() == kw.len());
        assert forall|j: int| 0 <= j < w.len() implies w[j] == kw[j] by {
            if j >= k {
                assert(w[j] == w.subrange(k, w.len() as int)[j - k]);
                assert(rest[j - k] == kw[j]);
            }
        }
        assert(w =~= kw);
    }
}

/// Whether the `length` characters of `a` from `a_start` are exactly `b`.
fn cmp(a: &Vec<char>, a_start: usize, length: usize, b: &str) -> (r: bool)
    requires
        a_start + length <= a@.len(),
    ensures
        r == (a@.subrange(a_start as int, a_start + length) == b@),
{
    if b.unicode_len() != length {
        proof {
            assert(a@.subrange(a_start as int, a_start + length).len() != b@.len());
        }
        return false;
    }
    let n = a.len();
    let mut i: usize = 0;
    while i < length
        invariant
            n == a@.len(),
            b@.len() == length,
            a_start + length <= a@.len(),
            i <= length,
            forall|j: int| 0 <= j < i ==> a@[a_start + j] == b@[j],
        decreases length - i,
    {
        if a[a_start + i] != b.get_char(i) {
            proof {
                assert(a@.subrange(a_start as int, a_start + length)[i as int] != b@[i as int]);
            }
            return false;
        }
        i = i + 1;
    }
    assert(a@.subrange(a_start as int, a_start + length) =~= b@);
    true
}

} // verus!
