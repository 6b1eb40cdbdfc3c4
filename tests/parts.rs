use rlox::chunk::{add_constant, init_chunk, write_chunk, OP_ADD, OP_CONSTANT, OP_NEGATE, OP_RETURN};
use rlox::compiler::Compiler;
use rlox::debug::{disassemble_chunk, disassemble_instruction, instruction_name};
use rlox::parser::{next_precedence, ParseFn, Parser, Precedence};
use rlox::scanner::{LexError, Scanner, Token, TokenType};
use rlox::value::{
    as_bool, as_number, bool_val, is_falsy, nil_val, number_equal, number_less, number_negate,
    number_val, values_equal, Value, ValueType,
};

fn bits(x: f64) -> u64 {
    x.to_bits()
}

fn tokens(source: &str) -> Vec<Token> {
    let mut scanner = Scanner::new(source.to_string());
    let mut out = Vec::new();
    loop {
        let t = scanner.scan_token();
        out.push(t);
        if t.token_type == TokenType::EOF {
            return out;
        }
    }
}

fn kinds(source: &str) -> Vec<TokenType> {
    tokens(source).iter().map(|t| t.token_type).collect()
}

#[test]
fn keywords_and_identifiers() {
    assert_eq!(
        kinds("and class else false for fun if nil or print return super this true var while"),
        vec![TokenType::And, TokenType::Class, TokenType::Else, TokenType::False, TokenType::For, TokenType::Fun, TokenType::If, TokenType::Nil, TokenType::Or, TokenType::Print, TokenType::Return, TokenType::Super, TokenType::This, TokenType::True, TokenType::Var, TokenType::While, TokenType::EOF]
    );
    assert_eq!(
        kinds("an classy f fo funny t th tru _x x1 While"),
        vec![TokenType::Identifier, TokenType::Identifier, TokenType::Identifier, TokenType::Identifier, TokenType::Identifier, TokenType::Identifier, TokenType::Identifier,
             TokenType::Identifier, TokenType::Identifier, TokenType::Identifier, TokenType::Identifier, TokenType::EOF]
    );
}

#[test]
fn punctuation() {
    assert_eq!(
        kinds("(){},.-+;/* ! != = == > >= < <="),
        vec![TokenType::LeftParen, TokenType::RightParen, TokenType::LeftBrace, TokenType::RightBrace, TokenType::Comma, TokenType::Dot, TokenType::Minus, TokenType::Plus, TokenType::Semicolon,
             TokenType::Slash, TokenType::Star, TokenType::Bang, TokenType::BangEqual, TokenType::Equal, TokenType::EqualEqual, TokenType::Greater, TokenType::GreaterEqual, TokenType::Less,
             TokenType::LessEqual, TokenType::EOF]
    );
    assert_eq!(kinds("(="), vec![TokenType::LeftParen, TokenType::Equal, TokenType::EOF]);
}

#[test]
fn numbers_and_strings() {
    let source = "12.5 7. \"a\nb\" 3";
    let ts = tokens(source);
    let scanner = Scanner::new(source.to_string());
    let texts: Vec<String> = ts[..ts.len() - 1].iter().map(|t| scanner.lexeme(t).to_string()).collect();
    assert_eq!(texts, vec!["12.5", "7", ".", "\"a\nb\"", "3"]);
    assert_eq!(ts[3].line, 2);
    assert_eq!(ts[4].line, 2);
}

#[test]
fn lexemes_are_slices_of_the_source() {
    let source = "var x = (1 + 22) * \"héllo\" // note\n >= @ ä";
    let chars: Vec<char> = source.chars().collect();
    let scanner = Scanner::new(source.to_string());
    for t in tokens(source) {
        if t.token_type != TokenType::Error {
            assert!(t.start + t.length <= chars.len());
            let expected: String = chars[t.start..t.start + t.length].iter().collect();
            assert_eq!(scanner.lexeme(&t), expected);
        }
    }
}

#[test]
fn scan_errors() {
    let ts = tokens("@\n\"abc");
    assert_eq!(ts[0].token_type, TokenType::Error);
    assert_eq!(ts[0].error, Some(LexError::UnexpectedCharacter));
    assert_eq!(ts[0].message(), "Unexpected character");
    assert_eq!(ts[0].line, 1);
    assert_eq!(ts[1].error, Some(LexError::UnterminatedString));
    assert_eq!(ts[1].message(), "Unterminated string");
    assert_eq!(ts[1].line, 2);
    assert_eq!(ts[2].token_type, TokenType::EOF);
}

#[test]
fn eof_repeats_after_the_end() {
    let mut scanner = Scanner::new("1\n".to_string());
    assert_eq!(scanner.scan_token().token_type, TokenType::Number);
    for _ in 0..3 {
        let t = scanner.scan_token();
        assert_eq!(t.token_type, TokenType::EOF);
        assert_eq!(t.line, 2);
    }
}

#[test]
fn scanning_is_deterministic() {
    let source = "!(5 - 4 > 3 * 2 == !nil) // x\n \"s\" @";
    assert_eq!(tokens(source), tokens(source));
}

#[test]
fn precedence_ladder() {
    assert_eq!(next_precedence(&Precedence::Lowest), Precedence::Assignment);
    assert_eq!(next_precedence(&Precedence::Term), Precedence::Factor);
    assert_eq!(next_precedence(&Precedence::Call), Precedence::Primary);
    assert_eq!(Precedence::Primary.level(), 10);
    assert_eq!(Precedence::Lowest.level(), 0);
}

#[test]
fn parse_table() {
    let parser = Parser::new();
    let minus = parser.get_rule(TokenType::Minus);
    assert_eq!(minus.prefix, Some(ParseFn::Unary));
    assert_eq!(minus.infix, Some(ParseFn::Binary));
    assert_eq!(minus.precedence, Precedence::Term);
    let number = parser.get_rule(TokenType::Number);
    assert_eq!(number.prefix, Some(ParseFn::Number));
    assert_eq!(number.infix, None);
    assert_eq!(parser.get_rule(TokenType::Less).precedence, Precedence::Comparison);
    assert_eq!(parser.get_rule(TokenType::EqualEqual).precedence, Precedence::Equality);
    assert_eq!(parser.get_rule(TokenType::Star).precedence, Precedence::Factor);
    assert_eq!(parser.get_rule(TokenType::True).prefix, Some(ParseFn::Literal));
    assert_eq!(parser.get_rule(TokenType::LeftParen).prefix, Some(ParseFn::Grouping));
    assert_eq!(parser.get_rule(TokenType::String).prefix, None);
    assert_eq!(parser.get_rule(TokenType::EOF).precedence, Precedence::Lowest);
}

#[test]
fn chunk_building() {
    let mut chunk = init_chunk();
    assert!(chunk.code.is_empty() && chunk.lines.is_empty() && chunk.constants.is_empty());
    let a = add_constant(&mut chunk, number_val(bits(1.5)));
    let b = add_constant(&mut chunk, number_val(bits(1.5)));
    assert_eq!((a, b), (0, 1));
    write_chunk(&mut chunk, OP_CONSTANT, 3);
    write_chunk(&mut chunk, 1, 3);
    write_chunk(&mut chunk, OP_RETURN, 4);
    assert_eq!(chunk.code, vec![OP_CONSTANT, 1, OP_RETURN]);
    assert_eq!(chunk.lines, vec![3, 3, 4]);
    assert_eq!(chunk.constants.len(), 2);
}

#[test]
fn disassembly() {
    let mut compiler = Compiler::new("1 +\n-2".to_string(), init_chunk(), |s: &str| {
        s.parse::<f64>().unwrap().to_bits()
    });
    assert!(compiler.compile());
    let (chunk, _) = compiler.finish();
    let listing = disassemble_chunk(&chunk);
    let names: Vec<&str> = listing.iter().map(|i| instruction_name(i.opcode)).collect();
    assert_eq!(names, vec!["OP_CONSTANT", "OP_CONSTANT", "OP_NEGATE", "OP_ADD", "OP_RETURN"]);
    let offsets: Vec<usize> = listing.iter().map(|i| i.offset).collect();
    assert_eq!(offsets, vec![0, 2, 4, 5, 6]);
    let first = disassemble_instruction(&chunk, 0);
    assert_eq!(first.line, Some(1));
    assert_eq!(first.next, 2);
    assert_eq!(first.constant, Some((0, Some(number_val(bits(1.0))))));
    let second = disassemble_instruction(&chunk, 2);
    assert_eq!(second.line, Some(2));
    let negate = disassemble_instruction(&chunk, 4);
    assert_eq!(negate.line, None);
    assert_eq!(negate.opcode, OP_NEGATE);
    assert_eq!(negate.constant, None);
    assert_eq!(disassemble_instruction(&chunk, 5).opcode, OP_ADD);
    assert_eq!(instruction_name(200), "");
}

#[test]
fn values() {
    assert_eq!(nil_val(), Value::Nil);
    assert_eq!(bool_val(true).value_type(), ValueType::Bool);
    assert_eq!(nil_val().value_type(), ValueType::Nil);
    assert_eq!(number_val(bits(2.0)).value_type(), ValueType::Number);
    assert_eq!(as_number(&number_val(bits(2.5))), bits(2.5));
    assert!(!as_bool(&bool_val(false)));
    assert!(is_falsy(&Value::Nil));
    assert!(is_falsy(&Value::Bool(false)));
    assert!(!is_falsy(&Value::Bool(true)));
    assert!(!is_falsy(&number_val(bits(0.0))));
    assert!(values_equal(Value::Nil, Value::Nil));
    assert!(!values_equal(Value::Nil, Value::Bool(false)));
    assert!(!values_equal(number_val(bits(1.0)), Value::Bool(true)));
    assert!(values_equal(number_val(bits(0.0)), number_val(bits(-0.0))));
}

#[test]
fn number_bits_agree_with_doubles() {
    let samples = [
        0.0, -0.0, 1.0, -1.0, 0.5, -2.5, 1e300, -1e-300, f64::INFINITY, f64::NEG_INFINITY,
        f64::NAN, f64::MIN_POSITIVE, 5e-324, -5e-324, f64::MAX, f64::MIN,
    ];
    for &x in &samples {
        assert_eq!(f64::from_bits(number_negate(x.to_bits())).to_bits(), (-x).to_bits());
        for &y in &samples {
            assert_eq!(number_equal(x.to_bits(), y.to_bits()), x == y, "{} == {}", x, y);
            assert_eq!(number_less(x.to_bits(), y.to_bits()), x < y, "{} < {}", x, y);
        }
    }
}

#[test]
fn constant_holds_the_numeral() {
    let mut compiler = Compiler::new("0.25".to_string(), init_chunk(), |s: &str| {
        s.parse::<f64>().unwrap().to_bits()
    });
    assert!(compiler.compile());
    assert!(compiler.diagnostics().is_empty());
    let (chunk, _) = compiler.finish();
    assert_eq!(chunk.constants, vec![Value::Number(bits(0.25))]);
    assert_eq!(chunk.code, vec![OP_CONSTANT, 0, OP_RETURN]);
}
