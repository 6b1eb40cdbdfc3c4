use crate::chunk::{
    add_constant,
    depth_before_return,
    is_expression_code,
    is_infix_code,
    lemma_stack_effect_append,
    lemma_stack_effect_shift,
    stack_effect,
    write_chunk,
    Chunk,
    MAX_CONSTANT_INDEX,
    OP_ADD,
    OP_CONSTANT,
    OP_DIVIDE,
    OP_EQUAL,
    OP_FALSE,
    OP_GREATER,
    OP_LESS,
    OP_MULTIPLY,
    OP_NEGATE,
    OP_NIL,
    OP_NOT,
    OP_RETURN,
    OP_SUBTRACT,
    OP_TRUE,
};
use crate::parser::{next_level, next_precedence, rule_for, ParseFn, Parser, Precedence};
use crate::report::{line_tag, line_tag_text};
use crate::scanner::{
    lemma_nth_token,
    lemma_scan_bounds,
    lemma_scan_state,
    nth_token,
    scan_state,
    token_stream,
    LexError,
    Scanner,
    Token,
    TokenType,
};
use crate::value::Value;
use vstd::prelude::*;
use vstd::string::*;

verus! {

/// A token other than `Error` spans characters of the text.
pub open spec fn token_fits(t: Token, text: Seq<char>) -> bool {
    t.token_type != TokenType::Error ==> t.start + t.length <= text.len()
}

/// Where a diagnostic points: at the end, nowhere (the message of an `Error`
/// token says it all), or at a token's text.
pub open spec fn error_site(t: Token, text: Seq<char>) -> Seq<char> {
    if t.token_type == TokenType::EOF {
        " at end"@
    } else if t.token_type == TokenType::Error {
        ""@
    } else {
        " at '"@ + text.subrange(t.start as int, t.start + t.length) + "'"@
    }
}

/// A compile diagnostic: `[line L] Error at X: MESSAGE`.
pub open spec fn diagnostic(t: Token, text: Seq<char>, message: Seq<char>) -> Seq<char> {
    line_tag(t.line as nat) + " Error"@ + error_site(t, text) + ": "@ + message
}

/// The code that a binary operator compiles to, after its two operands.
pub open spec fn binary_code(operator: TokenType) -> Seq<u8> {
    match operator {
        TokenType::Plus => seq![OP_ADD],
        TokenType::Minus => seq![OP_SUBTRACT],
        TokenType::Star => seq![OP_MULTIPLY],
        TokenType::Slash => seq![OP_DIVIDE],
        TokenType::BangEqual => seq![OP_EQUAL, OP_NOT],
        TokenType::EqualEqual => seq![OP_EQUAL],
        TokenType::Greater => seq![OP_GREATER],
        TokenType::GreaterEqual => seq![OP_LESS, OP_NOT],
        TokenType::Less => seq![OP_LESS],
        TokenType::LessEqual => seq![OP_GREATER, OP_NOT],
        _ => Seq::empty(),
    }
}

/// The code that a prefix operator compiles to, after its operand.
pub open spec fn unary_code(operator: TokenType) -> Seq<u8> {
    if operator == TokenType::Minus {
        seq![OP_NEGATE]
    } else {
        seq![OP_NOT]
    }
}

/// The instruction of a literal keyword.
pub open spec fn literal_code(literal: TokenType) -> u8 {
    if literal == TokenType::False {
        OP_FALSE
    } else if literal == TokenType::True {
        OP_TRUE
    } else {
        OP_NIL
    }
}

/// `after` starts with `before`.
pub open spec fn extends(before: Seq<u8>, after: Seq<u8>) -> bool {
    before.len() <= after.len() && after.subrange(0, before.len() as int) == before
}

proof fn lemma_extends(a: Seq<u8>, b: Seq<u8>)
    ensures
        extends(a, a + b),
        extends(a, a),
        emitted(a, a + b) == b,
{
    assert((a + b).subrange(0, a.len() as int) =~= a);
    assert(a.subrange(0, a.len() as int) =~= a);
    assert(emitted(a, a + b) =~= b);
}

/// What was appended to `before` to give `after`.
pub open spec fn emitted(before: Seq<u8>, after: Seq<u8>) -> Seq<u8> {
    after.subrange(before.len() as int, after.len() as int)
}

/// `code` ends with `tail`.
pub open spec fn ends_with(code: Seq<u8>, tail: Seq<u8>) -> bool {
    tail.len() <= code.len() && code.subrange(code.len() - tail.len(), code.len() as int) == tail
}

/// The characters of the text that a token spans.
pub open spec fn lexeme_of(t: Token, text: Seq<char>) -> Seq<char> {
    text.subrange(t.start as int, t.start + t.length)
}

/// Where a compilation stands, as far as the source decides it: how many
/// tokens have been scanned, the token just consumed and the lookahead,
/// whether an error has been reported, the code and its lines, how many
/// constants the pool holds, the numerals of the constants added so far, and
/// the diagnostics.
pub struct Progress {
    pub scanned: nat,
    pub previous: Token,
    pub current: Token,
    pub had_error: bool,
    pub code: Seq<u8>,
    pub lines: Seq<usize>,
    pub pool: nat,
    pub numerals: Seq<Seq<char>>,
    pub reports: Seq<Seq<char>>,
}

/// `value` is a number that `number_value` gave for a numeral of this text.
pub open spec fn reads_as<F: Fn(&str) -> u64>(
    number_value: F,
    numeral: Seq<char>,
    value: Value,
) -> bool {
    exists|s: &str, bits: u64|
        s@ == numeral && #[trigger] number_value.ensures((s,), bits) && value == Value::Number(bits)
}

/// The token that stands before the first one is scanned: an `EOF` at the
/// start of line 1.
pub open spec fn no_token() -> Token {
    Token { token_type: TokenType::EOF, start: 0, length: 0, line: 1, error: None }
}

/// A compilation that has not begun, into a chunk with this code, these
/// lines and this many constants.
pub open spec fn fresh_from(code: Seq<u8>, lines: Seq<usize>, pool: nat) -> Progress {
    Progress {
        scanned: 0,
        previous: no_token(),
        current: no_token(),
        had_error: false,
        code,
        lines,
        pool,
        numerals: Seq::empty(),
        reports: Seq::empty(),
    }
}

/// A compilation that has not begun, into `chunk`.
pub open spec fn fresh(chunk: Chunk) -> Progress {
    fresh_from(chunk.code@, chunk.lines@, chunk.constants@.len())
}

/// The message of a scan error.
pub open spec fn lex_message(e: LexError) -> Seq<char> {
    match e {
        LexError::UnexpectedCharacter => "Unexpected character"@,
        LexError::UnterminatedString => "Unterminated string"@,
    }
}

/// The message that an `Error` token carries.
pub open spec fn token_message(t: Token) -> Seq<char> {
    match t.error {
        Some(e) => lex_message(e),
        None => ""@,
    }
}

/// Reporting `message` at `t`: only the first report of a compilation is
/// kept.
pub open spec fn report(s: Seq<char>, m: Progress, t: Token, message: Seq<char>) -> Progress {
    if m.had_error {
        m
    } else {
        Progress { had_error: true, reports: m.reports.push(diagnostic(t, s, message)), ..m }
    }
}

/// Appending code, each byte on the line of the token just consumed.
pub open spec fn emit(m: Progress, bytes: Seq<u8>) -> Progress {
    Progress {
        code: m.code + bytes,
        lines: m.lines + Seq::new(bytes.len(), |i: int| m.previous.line),
        ..m
    }
}

/// Scanning into the lookahead until a token that is not an `Error`,
/// reporting each `Error` token on the way.
pub open spec fn scan_next(s: Seq<char>, m: Progress) -> Progress
    decreases s.len() - scan_state(s, m.scanned).0,
    when s.len() < usize::MAX
{
    let t = nth_token(s, m.scanned);
    let m1 = Progress { scanned: m.scanned + 1, current: t, ..m };
    if t.token_type != TokenType::Error {
        m1
    } else {
        proof {
            lemma_scan_state(s, m.scanned);
            lemma_scan_state(s, m.scanned + 1);
            lemma_nth_token(s, m.scanned);
        }
        scan_next(s, report(s, m1, t, token_message(t)))
    }
}

/// Consuming the lookahead.
pub open spec fn advance_spec(s: Seq<char>, m: Progress) -> Progress {
    scan_next(s, Progress { previous: m.current, ..m })
}

/// Consuming the lookahead where it is of `kind`; reporting otherwise.
pub open spec fn consume_spec(
    s: Seq<char>,
    m: Progress,
    kind: TokenType,
    message: Seq<char>,
) -> Progress {
    if m.current.token_type == kind {
        advance_spec(s, m)
    } else {
        report(s, m, m.current, message)
    }
}

/// Adding a number to the pool and emitting `OP_CONSTANT` with its index; past
/// the largest index an operand holds, reporting, and index 0.
pub open spec fn constant_spec(s: Seq<char>, m: Progress) -> Progress {
    let added = if m.pool < usize::MAX {
        Progress {
            pool: m.pool + 1,
            numerals: m.numerals.push(lexeme_of(m.previous, s)),
            ..m
        }
    } else {
        m
    };
    if m.pool <= MAX_CONSTANT_INDEX {
        emit(added, seq![OP_CONSTANT, m.pool as u8])
    } else {
        emit(
            report(s, added, m.previous, "Too many constants in one chunk."@),
            seq![OP_CONSTANT, 0u8],
        )
    }
}

/// Parsing and compiling an expression whose operators bind at least as
/// tightly as `p`. The budget `b` only bounds the recursion: the compiler
/// gives each call enough.
pub open spec fn parse_spec(s: Seq<char>, m: Progress, p: Precedence, b: int) -> Progress
    decreases b, 3int,
{
    if b <= 0 {
        m
    } else {
        let m1 = advance_spec(s, m);
        match rule_for(m1.previous.token_type).prefix {
            None => report(s, m1, m1.previous, "Expect expression."@),
            Some(h) => infix_spec(s, prefix_spec(s, m1, h, b - 1), p, b - 1),
        }
    }
}

/// The prefix handler `h` on a consumed token.
pub open spec fn prefix_spec(s: Seq<char>, m: Progress, h: ParseFn, b: int) -> Progress
    decreases b, 2int,
{
    match h {
        ParseFn::Grouping => grouping_spec(s, m, b),
        ParseFn::Unary => unary_spec(s, m, b),
        ParseFn::Number => constant_spec(s, m),
        ParseFn::Literal => emit(m, seq![literal_code(m.previous.token_type)]),
        ParseFn::Binary => m,
    }
}

/// A parenthesised expression after its `(`.
pub open spec fn grouping_spec(s: Seq<char>, m: Progress, b: int) -> Progress
    decreases b, 1int,
{
    consume_spec(
        s,
        expression_spec(s, m, b),
        TokenType::RightParen,
        "Expect ')' after expression."@,
    )
}

/// An expression.
pub open spec fn expression_spec(s: Seq<char>, m: Progress, b: int) -> Progress
    decreases b, 0int,
{
    if b <= 0 {
        m
    } else {
        parse_spec(s, m, Precedence::Assignment, b - 1)
    }
}

/// The operand of a prefix operator, then its code.
pub open spec fn unary_spec(s: Seq<char>, m: Progress, b: int) -> Progress
    decreases b, 1int,
{
    if b <= 0 {
        m
    } else {
        let operand = parse_spec(s, m, Precedence::Unary, b - 1);
        emit(operand, unary_code(m.previous.token_type))
    }
}

/// The right operand of an infix operator, one level tighter, then its code.
pub open spec fn binary_spec(s: Seq<char>, m: Progress, b: int) -> Progress
    decreases b, 1int,
{
    if b <= 0 {
        m
    } else {
        let operator = m.previous.token_type;
        let p = rule_for(operator).precedence;
        let next = if p == Precedence::Primary {
            p
        } else {
            next_level(p)
        };
        let operand = parse_spec(s, m, next, b - 1);
        emit(operand, binary_code(operator))
    }
}

/// Infix operators that bind at least as tightly as `p`, one after another.
pub open spec fn infix_spec(s: Seq<char>, m: Progress, p: Precedence, b: int) -> Progress
    decreases b, 0int,
{
    if b <= 0 || p.rank() > rule_for(m.current.token_type).precedence.rank() {
        m
    } else {
        let m1 = advance_spec(s, m);
        let m2 = if rule_for(m1.previous.token_type).infix == Some(ParseFn::Binary) {
            binary_spec(s, m1, b - 1)
        } else {
            m1
        };
        infix_spec(s, m2, p, b - 1)
    }
}

/// The measure of a compilation state, as the compiler's own.
pub open spec fn progress_measure(s: Seq<char>, m: Progress) -> int {
    2 * (s.len() - scan_state(s, m.scanned).0) + if m.current.token_type == TokenType::EOF {
        0int
    } else {
        1int
    }
}

/// Compiling the whole text: the first token, one expression, the end of the
/// text, then `OP_RETURN`.
pub open spec fn compile_spec(s: Seq<char>, m: Progress) -> Progress {
    let m1 = advance_spec(s, m);
    let m2 = expression_spec(s, m1, 2 * progress_measure(s, m1) + 2);
    let m3 = consume_spec(s, m2, TokenType::EOF, "Expect end of expression."@);
    emit(m3, seq![OP_RETURN])
}

/// Compiles one expression of source text into a chunk, in a single pass:
/// each handler of the parse table emits code as it parses. Numerals are read
/// by `number_value`, which gives the bits of the double that a numeral
/// denotes.
pub struct Compiler<F> {
    parser: Parser,
    scanner: Scanner,
    pub compiling_chunk: Chunk,
    diagnostics: Vec<String>,
    number_value: F,
    first_constant: Ghost<nat>,
    numerals: Ghost<Seq<Seq<char>>>,
}

impl<F: Fn(&str) -> u64> Compiler<F> {
    /// What holds between steps, but for the lookahead not being an `Error`
    /// token.
    closed spec fn inv(&self) -> bool {
        &&& self.scanner.wf()
        &&& 0 <= self.scanner.position() <= self.scanner.text().len()
        &&& self.compiling_chunk.wf()
        &&& token_fits(self.parser.current, self.scanner.text())
        &&& token_fits(self.parser.previous, self.scanner.text())
        &&& self.parser.had_error == self.parser.panic_mode
        &&& self.parser.had_error == (self.diagnostics@.len() > 0)
        &&& self.diagnostics@.len() <= 1
        &&& forall|s: &str| #[trigger] self.number_value.requires((s,))
        &&& self.first_constant@ + self.numerals@.len() == self.compiling_chunk.constants@.len()
        &&& forall|i: int|
            0 <= i < self.numerals@.len() ==> #[trigger] reads_as(
                self.number_value,
                self.numerals@[i],
                self.compiling_chunk.constants@[self.first_constant@ + i],
            )
    }

    pub closed spec fn wf(&self) -> bool {
        &&& self.inv()
        &&& self.parser.current.token_type != TokenType::Error
    }

    /// The source text.
    pub closed spec fn text(&self) -> Seq<char> {
        self.scanner.text()
    }

    /// The token just consumed.
    pub closed spec fn previous_token(&self) -> Token {
        self.parser.previous
    }

    /// Whether an error has been reported.
    pub closed spec fn had_error(&self) -> bool {
        self.parser.had_error
    }

    /// The diagnostics reported so far.
    pub closed spec fn reported(&self) -> Seq<String> {
        self.diagnostics@
    }

    /// The index in the pool of the first constant that this compilation adds.
    pub closed spec fn first_constant(&self) -> nat {
        self.first_constant@
    }

    /// The function that reads numerals.
    pub closed spec fn number_fn(&self) -> F {
        self.number_value
    }

    /// Twice the characters left to scan, plus one while the lookahead is not
    /// `EOF`: consuming any token but `EOF` lowers it.
    pub closed spec fn measure(&self) -> int {
        2 * (self.scanner.text().len() - self.scanner.position()) + if self.parser.current.token_type
            == TokenType::EOF {
            0int
        } else {
            1int
        }
    }

    /// The chunk being built.
    pub closed spec fn chunk(&self) -> Chunk {
        self.compiling_chunk
    }

    /// Where the compilation stands.
    pub closed spec fn model(&self) -> Progress {
        Progress {
            scanned: self.scanner.history().len(),
            previous: self.parser.previous,
            current: self.parser.current,
            had_error: self.parser.had_error,
            code: self.compiling_chunk.code@,
            lines: self.compiling_chunk.lines@,
            pool: self.compiling_chunk.constants@.len(),
            numerals: self.numerals@,
            reports: self.diagnostics@.map_values(|d: String| d@),
        }
    }

    proof fn lemma_measure(&self)
        requires
            self.inv(),
        ensures
            self.measure() == progress_measure(self.scanner.text(), self.model()),
            self.measure() >= 0,
            self.scanner.text().len() < usize::MAX,
    {
        self.scanner.lemma_bounds();
    }

    /// `after` is this compiler later in the same compilation: still well
    /// formed, over the same text and numeral reader, with no more left to
    /// scan, no error withdrawn, and code and constants only appended to.
    pub closed spec fn leads_to(&self, after: Self) -> bool {
        &&& after.wf()
        &&& after.scanner.text() == self.scanner.text()
        &&& after.measure() <= self.measure()
        &&& (self.parser.had_error ==> after.parser.had_error)
        &&& extends(self.compiling_chunk.code@, after.compiling_chunk.code@)
        &&& self.compiling_chunk.constants@.len() <= after.compiling_chunk.constants@.len()
        &&& after.number_value == self.number_value
        &&& after.first_constant == self.first_constant
    }

    proof fn lemma_leads_to_trans(a: Self, b: Self, c: Self)
        requires
            a.leads_to(b),
            b.leads_to(c),
        ensures
            a.leads_to(c),
            emitted(a.code(), c.code()) == emitted(a.code(), b.code()) + emitted(
                b.code(),
                c.code(),
            ),
    {
        let (x, y, z) = (a.code(), b.code(), c.code());
        assert(z.subrange(0, x.len() as int) =~= z.subrange(0, y.len() as int).subrange(
            0,
            x.len() as int,
        ));
        assert(emitted(x, z) =~= emitted(x, y) + emitted(y, z));
    }

    pub open spec fn code(&self) -> Seq<u8> {
        self.chunk().code@
    }

    pub open spec fn pool(&self) -> nat {
        self.chunk().constants@.len()
    }

    /// A compiler over `source` that appends to `compiling_chunk`.
    pub fn new(source: String, compiling_chunk: Chunk, number_value: F) -> (r: Compiler<F>)
        requires
            source@.len() < usize::MAX,
            compiling_chunk.wf(),
            forall|s: &str| #[trigger] number_value.requires((s,)),
        ensures
            r.wf(),
            r.text() == source@,
            r.chunk() == compiling_chunk,
            r.model() == fresh(compiling_chunk),
            r.first_constant() == compiling_chunk.constants@.len(),
            !r.had_error(),
            r.reported().len() == 0,
            r.number_fn() == number_value,
    {
        let scanner = Scanner::new(source);
        proof {
            scanner.lemma_bounds();
        }
        let ghost first = compiling_chunk.constants@.len();
        let r = Compiler {
            parser: Parser::new(),
            scanner,
            compiling_chunk,
            diagnostics: Vec::new(),
            number_value,
            first_constant: Ghost(first),
            numerals: Ghost(Seq::empty()),
        };
        assert(r.model().reports =~= Seq::<Seq<char>>::empty());
        r
    }

    /// The diagnostics reported so far: none, or the first error.
    pub fn diagnostics(&self) -> (r: &Vec<String>)
        ensures
            r@ == self.reported(),
    {
        &self.diagnostics
    }

    /// The chunk that was built and the diagnostics that were reported.
    pub fn finish(self) -> (r: (Chunk, Vec<String>))
        requires
            self.wf(),
        ensures
            r.0 == self.chunk(),
            r.0.wf(),
            r.0.code@ == self.code(),
            r.0.constants@.len() == self.pool(),
            r.1@ == self.reported(),
            r.1@.len() <= 1,
            r.0.code@ == self.model().code,
            r.0.lines@ == self.model().lines,
            r.0.constants@.len() == self.model().pool,
            r.1@.map_values(|d: String| d@) == self.model().reports,
            self.first_constant() + self.model().numerals.len() == r.0.constants@.len(),
            forall|i: int|
                0 <= i < self.model().numerals.len() ==> #[trigger] reads_as(
                    self.number_fn(),
                    self.model().numerals[i],
                    r.0.constants@[self.first_constant() + i],
                ),
    {
        (self.compiling_chunk, self.diagnostics)
    }

    fn error_at(&mut self, token: Token, message: &str)
        requires
            old(self).inv(),
            token_fits(token, old(self).scanner.text()),
        ensures
            final(self).first_constant == old(self).first_constant,
            final(self).inv(),
            final(self).had_error(),
            final(self).scanner == old(self).scanner,
            final(self).compiling_chunk == old(self).compiling_chunk,
            final(self).parser.current == old(self).parser.current,
            final(self).parser.previous == old(self).parser.previous,
            final(self).number_value == old(self).number_value,
            old(self).had_error() ==> final(self).diagnostics@ == old(self).diagnostics@,
            !old(self).had_error() ==> final(self).diagnostics@.len() == 1
                && final(self).diagnostics@[0]@ == diagnostic(token, old(self).scanner.text(), message@),
            final(self).model() == report(
                old(self).scanner.text(),
                old(self).model(),
                token,
                message@,
            ),
    {
        if self.parser.panic_mode {
            return ;
        }
        self.parser.panic_mode = true;
        let ghost head = line_tag(token.line as nat) + " Error"@;
        let ghost site = error_site(token, self.scanner.text());
        let mut text = line_tag_text(token.line);
        text.append(" Error");
        if token.token_type == TokenType::EOF {
            text.append(" at end");
        } else if token.token_type == TokenType::Error {
            proof {
                reveal_strlit("");
            }
            assert(text@ =~= head + site);
        } else {
            text.append(" at '");
            text.append(self.scanner.lexeme(&token));
            text.append("'");
            assert(text@ =~= head + site);
        }
        assert(text@ =~= head + site);
        text.append(": ");
        text.append(message);
        assert(text@ =~= diagnostic(token, self.scanner.text(), message@));
        let ghost before = self.diagnostics@;
        self.diagnostics.push(text);
        self.parser.had_error = true;
        assert(self.diagnostics@.map_values(|d: String| d@) =~= before.map_values(
            |d: String| d@,
        ).push(text@));
    }

    fn error_at_current(&mut self, message: &str)
        requires
            old(self).inv(),
        ensures
            final(self).first_constant == old(self).first_constant,
            final(self).model() == report(
                old(self).scanner.text(),
                old(self).model(),
                old(self).parser.current,
                message@,
            ),
            final(self).inv(),
            final(self).had_error(),
            final(self).scanner == old(self).scanner,
            final(self).compiling_chunk == old(self).compiling_chunk,
            final(self).parser.current == old(self).parser.current,
            final(self).parser.previous == old(self).parser.previous,
            final(self).number_value == old(self).number_value,
            old(self).had_error() ==> final(self).diagnostics@ == old(self).diagnostics@,
            !old(self).had_error() ==> final(self).diagnostics@.len() == 1
                && final(self).diagnostics@[0]@ == diagnostic(
                old(self).parser.current,
                old(self).scanner.text(),
                message@,
            ),
    {
        let token = self.parser.current;
        self.error_at(token, message)
    }

    fn error(&mut self, message: &str)
        requires
            old(self).wf(),
        ensures
            final(self).model() == report(
                old(self).scanner.text(),
                old(self).model(),
                old(self).parser.previous,
                message@,
            ),
            old(self).leads_to(*final(self)),
            final(self).inv(),
            final(self).had_error(),
            final(self).scanner == old(self).scanner,
            final(self).compiling_chunk == old(self).compiling_chunk,
            final(self).parser.current == old(self).parser.current,
            final(self).parser.previous == old(self).parser.previous,
            final(self).number_value == old(self).number_value,
            old(self).had_error() ==> final(self).diagnostics@ == old(self).diagnostics@,
            !old(self).had_error() ==> final(self).diagnostics@.len() == 1
                && final(self).diagnostics@[0]@ == diagnostic(
                old(self).parser.previous,
                old(self).scanner.text(),
                message@,
            ),
    {
        let token = self.parser.previous;
        self.error_at(token, message);
        proof {
            lemma_extends(self.code(), Seq::empty());
        }
    }

    /// Consumes the lookahead and scans the next token that is not an
    /// `Error`, reporting each `Error` token met on the way.
    fn advance(&mut self)
        requires
            old(self).wf(),
        ensures
            final(self).model() == advance_spec(old(self).scanner.text(), old(self).model()),
            old(self).leads_to(*final(self)),
            final(self).wf(),
            final(self).parser.previous == old(self).parser.current,
            final(self).scanner.text() == old(self).scanner.text(),
            final(self).compiling_chunk == old(self).compiling_chunk,
            final(self).number_value == old(self).number_value,
            old(self).had_error() ==> final(self).had_error(),
            final(self).measure() <= old(self).measure(),
            old(self).parser.current.token_type != TokenType::EOF ==> final(self).measure()
                < old(self).measure(),
    {
        let ghost pos0 = self.scanner.position();
        let ghost err0 = self.parser.had_error;
        let ghost text = self.scanner.text();
        let ghost target = advance_spec(text, self.model());
        proof {
            self.scanner.lemma_bounds();
        }
        self.parser.previous = self.parser.current;
        loop
            invariant_except_break
                scan_next(text, self.model()) == target,
            invariant
                self.inv(),
                text.len() < usize::MAX,
                self.scanner.text() == text,
                self.parser.previous == old(self).parser.current,
                self.scanner.text() == old(self).scanner.text(),
                self.compiling_chunk == old(self).compiling_chunk,
                self.first_constant == old(self).first_constant,
                self.number_value == old(self).number_value,
                err0 ==> self.parser.had_error,
                pos0 <= self.scanner.position(),
            ensures
                self.wf(),
                self.model() == target,
                self.parser.previous == old(self).parser.current,
                self.scanner.text() == old(self).scanner.text(),
                self.compiling_chunk == old(self).compiling_chunk,
                self.first_constant == old(self).first_constant,
                self.number_value == old(self).number_value,
                err0 ==> self.parser.had_error,
                pos0 <= self.scanner.position(),
                self.parser.current.token_type != TokenType::EOF ==> pos0
                    < self.scanner.position(),
                self.parser.current.token_type == TokenType::EOF ==> self.scanner.position()
                    == self.scanner.text().len(),
            decreases self.scanner.text().len() - self.scanner.position(),
        {
            proof {
                self.scanner.lemma_bounds();
                lemma_scan_bounds(
                    self.scanner.text(),
                    self.scanner.position(),
                    self.scanner.line_number(),
                );
            }
            let ghost k = self.scanner.history().len();
            let ghost mb = self.model();
            proof {
                self.scanner.lemma_bounds();
            }
            self.parser.current = self.scanner.scan_token();
            proof {
                self.scanner.lemma_bounds();
                lemma_nth_token(text, k);
                assert(self.scanner.history()[k as int] == self.parser.current);
                let t = self.parser.current;
                assert(self.scanner.history().len() == k + 1);
                assert(self.scanner.text() == text);
                assert(self.scanner.history() == token_stream(text, k + 1));
                assert(token_stream(text, k).len() == k);
                assert(token_stream(text, k + 1)[k as int] == nth_token(text, k));
                assert(nth_token(text, k) == t);
                assert(self.model() == Progress { scanned: k + 1, current: t, ..mb });
            }
            if self.parser.current.token_type != TokenType::Error {
                break ;
            }
            let message = self.parser.current.message();
            self.error_at_current(message);
        }
        proof {
            lemma_extends(self.code(), Seq::empty());
        }
    }

    /// Consumes the lookahead where it is of `token_type`; reports `message`
    /// at it otherwise.
    fn consume(&mut self, token_type: TokenType, message: &str)
        requires
            old(self).wf(),
        ensures
            final(self).model() == consume_spec(
                old(self).scanner.text(),
                old(self).model(),
                token_type,
                message@,
            ),
            old(self).leads_to(*final(self)),
            final(self).wf(),
            final(self).scanner.text() == old(self).scanner.text(),
            final(self).compiling_chunk == old(self).compiling_chunk,
            final(self).number_value == old(self).number_value,
            old(self).had_error() ==> final(self).had_error(),
            old(self).parser.current.token_type != token_type ==> final(self).had_error(),
            final(self).measure() <= old(self).measure(),
    {
        if self.parser.current.token_type == token_type {
            self.advance();
            return ;
        }
        self.error_at_current(message);
        proof {
            lemma_extends(self.code(), Seq::empty());
        }
    }

    fn emit_byte(&mut self, byte: u8)
        requires
            old(self).wf(),
        ensures
            final(self).model() == emit(old(self).model(), seq![byte]),
            old(self).leads_to(*final(self)),
            final(self).wf(),
            final(self).compiling_chunk.code@ == old(self).compiling_chunk.code@.push(byte),
            final(self).compiling_chunk.constants@ == old(self).compiling_chunk.constants@,
            final(self).scanner == old(self).scanner,
            final(self).parser == old(self).parser,
            final(self).diagnostics@ == old(self).diagnostics@,
            final(self).number_value == old(self).number_value,
    {
        let line = self.parser.previous.line;
        write_chunk(&mut self.compiling_chunk, byte, line);
        proof {
            lemma_extends(old(self).code(), seq![byte]);
            assert(old(self).code().push(byte) =~= old(self).code() + seq![byte]);
            assert(self.compiling_chunk.lines@ =~= old(self).compiling_chunk.lines@ + Seq::new(
                1,
                |i: int| line,
            ));
            assert(self.model() =~= emit(old(self).model(), seq![byte]));
        }
    }

    fn emit_bytes(&mut self, byte1: u8, byte2: u8)
        requires
            old(self).wf(),
        ensures
            final(self).model() == emit(old(self).model(), seq![byte1, byte2]),
            old(self).leads_to(*final(self)),
            final(self).wf(),
            final(self).compiling_chunk.code@ == old(self).compiling_chunk.code@.push(byte1).push(
                byte2,
            ),
            final(self).compiling_chunk.constants@ == old(self).compiling_chunk.constants@,
            final(self).scanner == old(self).scanner,
            final(self).parser == old(self).parser,
            final(self).diagnostics@ == old(self).diagnostics@,
            final(self).number_value == old(self).number_value,
    {
        let ghost s0 = *self;
        self.emit_byte(byte1);
        let ghost s1 = *self;
        self.emit_byte(byte2);
        proof {
            Self::lemma_leads_to_trans(s0, s1, *self);
            let m = old(self).model();
            let l = m.previous.line;
            assert(s0.compiling_chunk.code@ + seq![byte1] + seq![byte2] =~= m.code + seq![
                byte1,
                byte2,
            ]);
            assert(m.lines + Seq::new(1, |i: int| l) + Seq::new(1, |i: int| l) =~= m.lines
                + Seq::new(2, |i: int| l));
            assert(self.model() =~= emit(m, seq![byte1, byte2]));
        }
    }

    fn emit_return(&mut self)
        requires
            old(self).wf(),
        ensures
            final(self).model() == emit(old(self).model(), seq![OP_RETURN]),
            old(self).leads_to(*final(self)),
            final(self).wf(),
            final(self).compiling_chunk.code@ == old(self).compiling_chunk.code@.push(OP_RETURN),
            final(self).compiling_chunk.constants@ == old(self).compiling_chunk.constants@,
            final(self).scanner == old(self).scanner,
            final(self).parser == old(self).parser,
            final(self).diagnostics@ == old(self).diagnostics@,
            final(self).number_value == old(self).number_value,
    {
        self.emit_byte(OP_RETURN);
    }

    fn end_compiler(&mut self)
        requires
            old(self).wf(),
        ensures
            final(self).model() == emit(old(self).model(), seq![OP_RETURN]),
            old(self).leads_to(*final(self)),
            final(self).wf(),
            final(self).compiling_chunk.code@ == old(self).compiling_chunk.code@.push(OP_RETURN),
            final(self).compiling_chunk.constants@ == old(self).compiling_chunk.constants@,
            final(self).scanner == old(self).scanner,
            final(self).parser == old(self).parser,
            final(self).diagnostics@ == old(self).diagnostics@,
            final(self).number_value == old(self).number_value,
    {
        self.emit_return();
    }

    /// Adds a constant to the pool and gives its index; past the largest index
    /// that an operand can hold, reports an error and gives 0.
    fn make_constant(&mut self, value: Value) -> (r: u8)
        requires
            old(self).wf(),
            reads_as(
                old(self).number_value,
                lexeme_of(old(self).parser.previous, old(self).scanner.text()),
                value,
            ),
        ensures
            ({
                let m = old(self).model();
                let added = if m.pool < usize::MAX {
                    Progress {
                        pool: m.pool + 1,
                        numerals: m.numerals.push(lexeme_of(m.previous, old(self).scanner.text())),
                        ..m
                    }
                } else {
                    m
                };
                &&& m.pool <= MAX_CONSTANT_INDEX ==> final(self).model() == added && r == m.pool
                &&& m.pool > MAX_CONSTANT_INDEX ==> r == 0 && final(self).model() == report(
                    old(self).scanner.text(),
                    added,
                    m.previous,
                    "Too many constants in one chunk."@,
                )
            }),
            old(self).leads_to(*final(self)),
            final(self).wf(),
            final(self).compiling_chunk.code@ == old(self).compiling_chunk.code@,
            final(self).scanner == old(self).scanner,
            final(self).parser.current == old(self).parser.current,
            final(self).parser.previous == old(self).parser.previous,
            final(self).number_value == old(self).number_value,
            old(self).had_error() ==> final(self).had_error(),
            old(self).pool() <= MAX_CONSTANT_INDEX ==> {
                &&& r == old(self).pool()
                &&& final(self).compiling_chunk.constants@
                    == old(self).compiling_chunk.constants@.push(value)
                &&& final(self).had_error() == old(self).had_error()
                &&& final(self).diagnostics@ == old(self).diagnostics@
            },
            old(self).pool() > MAX_CONSTANT_INDEX ==> r == 0 && final(self).had_error(),
    {
        if self.compiling_chunk.constants.len() == usize::MAX {
            self.error("Too many constants in one chunk.");
            return 0;
        }
        let ghost numeral = lexeme_of(self.parser.previous, self.scanner.text());
        let ghost numerals0 = self.numerals@;
        let ghost constants0 = self.compiling_chunk.constants@;
        let constant = add_constant(&mut self.compiling_chunk, value);
        self.numerals = Ghost(self.numerals@.push(numeral));
        proof {
            lemma_extends(self.code(), Seq::empty());
            let first = self.first_constant@;
            assert forall|i: int| 0 <= i < self.numerals@.len() implies #[trigger] reads_as(
                self.number_value,
                self.numerals@[i],
                self.compiling_chunk.constants@[first + i],
            ) by {
                if i < numerals0.len() {
                    assert(self.numerals@[i] == numerals0[i]);
                    assert(self.compiling_chunk.constants@[first + i] == constants0[first + i]);
                    assert(reads_as(self.number_value, numerals0[i], constants0[first + i]));
                }
            }
        }
        let ghost s1 = *self;
        if constant > MAX_CONSTANT_INDEX {
            self.error("Too many constants in one chunk.");
            proof {
                Self::lemma_leads_to_trans(*old(self), s1, *self);
            }
            return 0;
        }
        constant as u8
    }

    fn emit_constant(&mut self, value: Value)
        requires
            old(self).wf(),
            reads_as(
                old(self).number_value,
                lexeme_of(old(self).parser.previous, old(self).scanner.text()),
                value,
            ),
        ensures
            final(self).model() == constant_spec(old(self).scanner.text(), old(self).model()),
            old(self).leads_to(*final(self)),
            final(self).wf(),
            final(self).scanner == old(self).scanner,
            final(self).parser.current == old(self).parser.current,
            final(self).parser.previous == old(self).parser.previous,
            final(self).number_value == old(self).number_value,
            old(self).had_error() ==> final(self).had_error(),
            old(self).pool() <= MAX_CONSTANT_INDEX ==> {
                &&& final(self).compiling_chunk.code@ == old(self).compiling_chunk.code@.push(
                    OP_CONSTANT,
                ).push(old(self).pool() as u8)
                &&& final(self).compiling_chunk.constants@
                    == old(self).compiling_chunk.constants@.push(value)
                &&& final(self).had_error() == old(self).had_error()
                &&& final(self).diagnostics@ == old(self).diagnostics@
            },
            old(self).pool() > MAX_CONSTANT_INDEX ==> final(self).had_error(),
    {
        let constant = self.make_constant(value);
        let ghost s1 = *self;
        self.emit_bytes(OP_CONSTANT, constant);
        proof {
            Self::lemma_leads_to_trans(*old(self), s1, *self);
        }
    }

    /// Compiles the source text: one expression, then the end of the text,
    /// then `OP_RETURN`. Returns whether no error was reported.
    pub fn compile(&mut self) -> (r: bool)
        requires
            old(self).wf(),
        ensures
            old(self).leads_to(*final(self)),
            final(self).wf(),
            final(self).chunk().wf(),
            final(self).text() == old(self).text(),
            final(self).model() == compile_spec(old(self).text(), old(self).model()),
            r == !final(self).model().had_error,
            final(self).first_constant() == old(self).first_constant(),
            final(self).number_fn() == old(self).number_fn(),
            r == !final(self).had_error(),
            r == (final(self).reported().len() == 0),
            emitted(old(self).code(), final(self).code()).len() > 0,
            final(self).code().last() == OP_RETURN,
            r ==> depth_before_return(
                emitted(old(self).code(), final(self).code()),
                final(self).pool(),
            ) == Some(1int),
    {
        let ghost c0 = self.code();
        self.advance();
        proof {
            self.lemma_measure();
        }
        self.expression(Ghost(2 * self.measure() + 2));
        self.consume(TokenType::EOF, "Expect end of expression.");
        let ghost c1 = self.code();
        self.end_compiler();
        proof {
            assert(emitted(c0, self.code()).drop_last() =~= emitted(c0, c1));
            assert(self.code().subrange(0, c0.len() as int) =~= c0);
        }
        !self.parser.had_error
    }

    fn expression(&mut self, budget: Ghost<int>)
        requires
            old(self).wf(),
            budget@ >= 2 * old(self).measure() + 2,
        ensures
            final(self).model() == expression_spec(old(self).text(), old(self).model(), budget@),
            old(self).leads_to(*final(self)),
            !final(self).had_error() ==> is_expression_code(
                emitted(old(self).code(), final(self).code()),
                final(self).pool(),
            ),
        decreases old(self).measure(), 1int,
    {
        self.parse_precedence(Precedence::Assignment, Ghost(budget@ - 1));
    }

    /// Parses an expression whose operators bind at least as tightly as
    /// `precedence`, emitting its code.
    #[verifier::spinoff_prover]
    fn parse_precedence(&mut self, precedence: Precedence, budget: Ghost<int>)
        requires
            old(self).wf(),
            precedence.rank() >= 1,
            budget@ >= 2 * old(self).measure() + 1,
        ensures
            final(self).model() == parse_spec(
                old(self).text(),
                old(self).model(),
                precedence,
                budget@,
            ),
            old(self).leads_to(*final(self)),
            !final(self).had_error() ==> is_expression_code(
                emitted(old(self).code(), final(self).code()),
                final(self).pool(),
            ),
        decreases old(self).measure(), 0int,
    {
        let ghost m0 = self.measure();
        let ghost c0 = self.code();
        self.advance();
        let ghost s1 = *self;
        let prefix_rule = self.parser.get_rule(self.parser.previous.token_type).prefix;
        if prefix_rule.is_none() {
            self.error("Expect expression.");
            proof {
                Self::lemma_leads_to_trans(*old(self), s1, *self);
            }
            return ;
        }
        assert(self.measure() < m0);
        let ghost b = budget@ - 1;
        let handler = match prefix_rule {
            Option::Some(h) => h,
            Option::None => ParseFn::Binary,
        };
        self.prefix(handler, Ghost(b));
        proof {
            Self::lemma_leads_to_trans(*old(self), s1, *self);
            assert(emitted(c0, self.code()) =~= emitted(s1.code(), self.code()));
        }
        let ghost s2 = *self;
        self.parse_infix(precedence, Ghost(c0), Ghost(b));
        proof {
            Self::lemma_leads_to_trans(*old(self), s2, *self);
        }
    }

    /// Compiles what a prefix handler compiles, on the token just consumed.
    fn prefix(&mut self, handler: ParseFn, budget: Ghost<int>)
        requires
            old(self).wf(),
            budget@ >= 2 * old(self).measure() + 2,
            rule_for(old(self).parser.previous.token_type).prefix == Some(handler),
        ensures
            final(self).model() == prefix_spec(
                old(self).text(),
                old(self).model(),
                handler,
                budget@,
            ),
            old(self).leads_to(*final(self)),
            !final(self).had_error() ==> is_expression_code(
                emitted(old(self).code(), final(self).code()),
                final(self).pool(),
            ),
        decreases old(self).measure(), 3int,
    {
        let ghost c0 = self.code();
        match handler {
            ParseFn::Grouping => self.grouping(budget),
            ParseFn::Unary => self.unary(budget),
            ParseFn::Number => self.number(),
            ParseFn::Literal => self.literal(),
            ParseFn::Binary => {},
        }
        proof {
            reveal_with_fuel(stack_effect, 3);
            if handler == ParseFn::Number || handler == ParseFn::Literal {
                assert(emitted(c0, self.code()) =~= self.code().subrange(
                    c0.len() as int,
                    self.code().len() as int,
                ));
            }
            if handler == ParseFn::Binary {
                lemma_extends(self.code(), Seq::empty());
                assert(self.code() + Seq::<u8>::empty() =~= self.code());
            }
        }
    }

    /// Continues the expression whose code so far follows `start` with the
    /// infix operators that bind at least as tightly as `precedence`.
    fn parse_infix(&mut self, precedence: Precedence, start: Ghost<Seq<u8>>, budget: Ghost<int>)
        requires
            old(self).wf(),
            precedence.rank() >= 1,
            budget@ >= 2 * old(self).measure() + 1,
            extends(start@, old(self).code()),
            !old(self).had_error() ==> is_expression_code(
                emitted(start@, old(self).code()),
                old(self).pool(),
            ),
        ensures
            final(self).model() == infix_spec(
                old(self).text(),
                old(self).model(),
                precedence,
                budget@,
            ),
            old(self).leads_to(*final(self)),
            !final(self).had_error() ==> is_expression_code(
                emitted(start@, final(self).code()),
                final(self).pool(),
            ),
        decreases old(self).measure(), 0int,
    {
        let ghost c0 = start@;
        let ghost target = infix_spec(self.text(), self.model(), precedence, budget@);
        let ghost mut bl = budget@;
        proof {
            lemma_extends(self.code(), Seq::empty());
            assert(self.code() + Seq::<u8>::empty() =~= self.code());
        }
        loop
            invariant_except_break
                infix_spec(old(self).text(), self.model(), precedence, bl) == target,
            invariant
                bl >= 2 * self.measure() + 1,
                old(self).leads_to(*self),
                extends(c0, self.code()),
                precedence.rank() >= 1,
                !self.had_error() ==> is_expression_code(emitted(c0, self.code()), self.pool()),
            ensures
                self.model() == target,
                old(self).leads_to(*self),
                !self.had_error() ==> is_expression_code(emitted(c0, self.code()), self.pool()),
            decreases self.measure(),
        {
            let rule = self.parser.get_rule(self.parser.current.token_type);
            if precedence.level() > rule.precedence.level() {
                break ;
            }
            let ghost s2 = *self;
            let ghost c1 = self.code();
            self.advance();
            let ghost s3 = *self;
            proof {
                Self::lemma_leads_to_trans(*old(self), s2, s3);
            }
            let infix_rule = self.parser.get_rule(self.parser.previous.token_type).infix;
            if infix_rule == Option::Some(ParseFn::Binary) {
                self.binary(Ghost(bl - 1));
            }
            proof {
                bl = bl - 1;
                Self::lemma_leads_to_trans(*old(self), s3, *self);
                Self::lemma_leads_to_trans(s2, s3, *self);
                let x = self.code();
                assert(x.subrange(0, c0.len() as int) =~= x.subrange(0, c1.len() as int).subrange(
                    0,
                    c0.len() as int,
                ));
                if !self.had_error() {
                    let left = emitted(c0, c1);
                    let right = emitted(c1, x);
                    lemma_stack_effect_shift(left, 0, 0, s2.pool(), self.pool());
                    assert(emitted(c0, x) =~= left + right);
                    lemma_stack_effect_append(left, right, 0, self.pool());
                }
            }
        }
    }

    /// Compiles a parenthesised expression; the `(` has been consumed.
    /// `budget` is the recursion bound of the model that the result is
    /// stated in; twice the measure, plus two, is enough.
    pub fn grouping(&mut self, budget: Ghost<int>)
        requires
            old(self).wf(),
            budget@ >= 2 * old(self).measure() + 2,
        ensures
            final(self).model() == grouping_spec(old(self).text(), old(self).model(), budget@),
            old(self).leads_to(*final(self)),
            final(self).wf(),
            !final(self).had_error() ==> is_expression_code(
                emitted(old(self).code(), final(self).code()),
                final(self).pool(),
            ),
        decreases old(self).measure(), 2int,
    {
        self.expression(budget);
        self.consume(TokenType::RightParen, "Expect ')' after expression.");
    }

    /// Compiles a prefix `-` or `!` whose operator has been consumed: the
    /// operand, then `OP_NEGATE` or `OP_NOT`. For `budget`, see `grouping`.
    pub fn unary(&mut self, budget: Ghost<int>)
        requires
            old(self).wf(),
            budget@ >= 2 * old(self).measure() + 2,
            old(self).previous_token().token_type == TokenType::Minus
                || old(self).previous_token().token_type == TokenType::Bang,
        ensures
            final(self).model() == unary_spec(old(self).text(), old(self).model(), budget@),
            old(self).leads_to(*final(self)),
            final(self).wf(),
            ends_with(final(self).code(), unary_code(old(self).previous_token().token_type)),
            !final(self).had_error() ==> is_expression_code(
                emitted(old(self).code(), final(self).code()),
                final(self).pool(),
            ),
        decreases old(self).measure(), 2int,
    {
        let operator_type = self.parser.previous.token_type;
        let ghost c0 = self.code();
        self.parse_precedence(Precedence::Unary, Ghost(budget@ - 1));
        let ghost c1 = self.code();
        if operator_type == TokenType::Minus {
            self.emit_byte(OP_NEGATE);
        } else {
            self.emit_byte(OP_NOT);
        }
        proof {
            reveal_with_fuel(stack_effect, 2);
            assert(self.code().subrange(0, c0.len() as int) =~= c0);
            let operand = emitted(c0, c1);
            let op = unary_code(operator_type);
            assert(emitted(c0, self.code()) =~= operand + op);
            assert(self.code().subrange(self.code().len() - op.len(), self.code().len() as int)
                =~= op);
            if !self.had_error() {
                lemma_stack_effect_append(operand, op, 0, self.pool());
            }
        }
    }

    /// Compiles an infix operator whose left operand has been compiled and
    /// whose operator has been consumed: the right operand, parsed one level
    /// tighter than the operator so that operators of one level group to the
    /// left, then the operator's code. For `budget`, see `grouping`.
    #[verifier::spinoff_prover]
    #[verifier::rlimit(40)]
    pub fn binary(&mut self, budget: Ghost<int>)
        requires
            old(self).wf(),
            budget@ >= 2 * old(self).measure() + 2,
            rule_for(old(self).previous_token().token_type).infix == Some(ParseFn::Binary),
        ensures
            final(self).model() == binary_spec(old(self).text(), old(self).model(), budget@),
            old(self).leads_to(*final(self)),
            final(self).wf(),
            ends_with(final(self).code(), binary_code(old(self).previous_token().token_type)),
            !final(self).had_error() ==> is_infix_code(
                emitted(old(self).code(), final(self).code()),
                final(self).pool(),
            ),
        decreases old(self).measure(), 2int,
    {
        let operator_type = self.parser.previous.token_type;
        let rule = self.parser.get_rule(operator_type);
        let ghost c0 = self.code();
        self.parse_precedence(next_precedence(&rule.precedence), Ghost(budget@ - 1));
        let ghost c1 = self.code();
        match operator_type {
            TokenType::Plus => self.emit_byte(OP_ADD),
            TokenType::Minus => self.emit_byte(OP_SUBTRACT),
            TokenType::Star => self.emit_byte(OP_MULTIPLY),
            TokenType::Slash => self.emit_byte(OP_DIVIDE),
            TokenType::BangEqual => self.emit_bytes(OP_EQUAL, OP_NOT),
            TokenType::EqualEqual => self.emit_byte(OP_EQUAL),
            TokenType::Greater => self.emit_byte(OP_GREATER),
            TokenType::GreaterEqual => self.emit_bytes(OP_LESS, OP_NOT),
            TokenType::Less => self.emit_byte(OP_LESS),
            _ => self.emit_bytes(OP_GREATER, OP_NOT),
        }
        proof {
            reveal_with_fuel(stack_effect, 3);
            assert(self.code().subrange(0, c0.len() as int) =~= c0);
            let operand = emitted(c0, c1);
            let op = binary_code(operator_type);
            assert(emitted(c0, self.code()) =~= operand + op);
            assert(self.code().subrange(self.code().len() - op.len(), self.code().len() as int)
                =~= op);
            if !self.had_error() {
                lemma_stack_effect_shift(operand, 0, 1, self.pool(), self.pool());
                lemma_stack_effect_append(operand, op, 1, self.pool());
            }
        }
    }

    /// Compiles a numeral that has been consumed: its value goes to the
    /// constant pool, and `OP_CONSTANT` with the value's index to the code.
    pub fn number(&mut self)
        requires
            old(self).wf(),
            old(self).previous_token().token_type == TokenType::Number,
        ensures
            final(self).model() == constant_spec(old(self).text(), old(self).model()),
            old(self).leads_to(*final(self)),
            final(self).wf(),
            old(self).pool() <= MAX_CONSTANT_INDEX ==> {
                &&& final(self).code() == old(self).code().push(OP_CONSTANT).push(
                    old(self).pool() as u8,
                )
                &&& final(self).had_error() == old(self).had_error()
                &&& final(self).reported() == old(self).reported()
                &&& exists|s: &str, bits: u64|
                    {
                        &&& s@ == lexeme_of(old(self).previous_token(), old(self).text())
                        &&& #[trigger] old(self).number_fn().ensures((s,), bits)
                        &&& final(self).chunk().constants@ == old(
                            self,
                        ).chunk().constants@.push(Value::Number(bits))
                    }
            },
            old(self).pool() > MAX_CONSTANT_INDEX ==> final(self).had_error(),
    {
        let lexeme = self.scanner.lexeme(&self.parser.previous);
        let bits = (self.number_value)(lexeme);
        assert(lexeme@ == lexeme_of(self.previous_token(), self.text()) && self.number_fn().ensures(
            (lexeme,),
            bits,
        ));
        assert(reads_as(
            self.number_value,
            lexeme_of(self.parser.previous, self.scanner.text()),
            Value::Number(bits),
        ));
        self.emit_constant(Value::Number(bits));
    }

    /// Compiles `false`, `true` or `nil`, which has been consumed.
    pub fn literal(&mut self)
        requires
            old(self).wf(),
            old(self).previous_token().token_type == TokenType::False
                || old(self).previous_token().token_type == TokenType::True
                || old(self).previous_token().token_type == TokenType::Nil,
        ensures
            final(self).model() == emit(
                old(self).model(),
                seq![literal_code(old(self).previous_token().token_type)],
            ),
            old(self).leads_to(*final(self)),
            final(self).wf(),
            final(self).code() == old(self).code().push(
                literal_code(old(self).previous_token().token_type),
            ),
            final(self).pool() == old(self).pool(),
            final(self).had_error() == old(self).had_error(),
    {
        match self.parser.previous.token_type {
            TokenType::False => self.emit_byte(OP_FALSE),
            TokenType::True => self.emit_byte(OP_TRUE),
            _ => self.emit_byte(OP_NIL),
        }
    }
}

/// Compiling is deterministic: two compilations of equal source text that
/// start from equal points end at equal points, with the same code, lines,
/// number of constants, numerals behind them, diagnostics and outcome,
/// whatever reads the numerals.
pub proof fn compile_is_deterministic<F: Fn(&str) -> u64, G: Fn(&str) -> u64>(
    a0: Compiler<F>,
    a1: Compiler<F>,
    b0: Compiler<G>,
    b1: Compiler<G>,
)
    requires
        a1.model() == compile_spec(a0.text(), a0.model()),
        b1.model() == compile_spec(b0.text(), b0.model()),
        a0.text() == b0.text(),
        a0.model() == b0.model(),
    ensures
        a1.code() == b1.code(),
        a1.chunk().lines@ == b1.chunk().lines@,
        a1.pool() == b1.pool(),
        a1.had_error() == b1.had_error(),
        a1.reported().map_values(|d: String| d@) == b1.reported().map_values(|d: String| d@),
        a1.model().numerals == b1.model().numerals,
{
}

} // verus!
