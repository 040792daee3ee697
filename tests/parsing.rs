use lambda::ast::AstNode;
use lambda::lexer::{LexError, Lexer, Token, TokenType};
use lambda::parser::{ParseError, Parser};

fn id(name: &str) -> AstNode {
    AstNode::Identifier(name.to_string())
}

fn abs(p: &str, body: AstNode) -> AstNode {
    AstNode::Abstraction { parameter: p.to_string(), term: Box::new(body) }
}

fn app(f: AstNode, a: AstNode) -> AstNode {
    AstNode::Application { lhs: Box::new(f), rhs: Box::new(a) }
}

fn parse_line(src: &str) -> Result<AstNode, ParseError> {
    let mut lexer = Lexer::new();
    let tokens = lexer.lex_line(src).expect("line scans");
    Parser::new().parse(tokens)
}

fn kinds(tokens: &[Token]) -> Vec<TokenType> {
    tokens.iter().map(|t| t.get_type()).collect()
}

#[test]
fn application_is_left_associative() {
    assert_eq!(parse_line("a b c"), Ok(app(app(id("a"), id("b")), id("c"))));
}

#[test]
fn lone_colon_is_a_lex_error() {
    let mut lexer = Lexer::new();
    assert_eq!(lexer.lex_line(":").unwrap_err(), LexError::IncompleteAssign { line: 1, col: 0 });
}

#[test]
fn colon_followed_by_other_is_a_lex_error() {
    let mut lexer = Lexer::new();
    assert_eq!(lexer.lex_line("x :x").unwrap_err(), LexError::IncompleteAssign { line: 1, col: 2 });
}

#[test]
fn bad_character_is_a_lex_error() {
    let mut lexer = Lexer::new();
    assert_eq!(
        lexer.lex_line("a ! b").unwrap_err(),
        LexError::BadCharacter { line: 1, col: 2, found: '!' }
    );
}

#[test]
fn missing_close_paren_is_a_parse_error() {
    assert_eq!(
        parse_line("(a"),
        Err(ParseError::Unexpected {
            expected: TokenType::CloseParen,
            found: TokenType::EOF,
            line: 1,
            col: 2,
        })
    );
}

#[test]
fn empty_token_sequence_runs_out() {
    assert_eq!(Parser::new().parse(Vec::new()), Err(ParseError::OutOfTokens { position: 0 }));
}

#[test]
fn stray_dot_is_a_parse_error() {
    assert_eq!(
        parse_line(". a"),
        Err(ParseError::Unexpected { expected: TokenType::Identifier, found: TokenType::Dot, line: 1, col: 0 })
    );
}

#[test]
fn trailing_close_paren_is_a_parse_error() {
    assert_eq!(
        parse_line("a )"),
        Err(ParseError::Unexpected { expected: TokenType::EOF, found: TokenType::CloseParen, line: 1, col: 2 })
    );
}

#[test]
fn lexer_emits_kinds_positions_and_text() {
    let mut lexer = Lexer::new();
    let tokens = lexer.lex_line("λx.(foo x) # note").unwrap();
    assert_eq!(
        kinds(&tokens),
        vec![
            TokenType::Lambda,
            TokenType::Identifier,
            TokenType::Dot,
            TokenType::OpenParen,
            TokenType::Identifier,
            TokenType::Identifier,
            TokenType::CloseParen,
            TokenType::EOF,
        ]
    );
    assert_eq!(tokens[4].get_lexeme(), &vec!['f', 'o', 'o']);
    assert_eq!(tokens[4].get_col(), 4);
    assert!(tokens[7].get_lexeme().is_empty());
    assert_eq!(tokens[7].get_col(), 17);
    assert!(tokens[0].is_type(TokenType::Lambda));
}

#[test]
fn backslash_is_lambda_and_assign_is_scanned() {
    let mut lexer = Lexer::new();
    let tokens = lexer.lex_line("i := \\x.x").unwrap();
    assert_eq!(
        kinds(&tokens),
        vec![
            TokenType::Identifier,
            TokenType::Assign,
            TokenType::Lambda,
            TokenType::Identifier,
            TokenType::Dot,
            TokenType::Identifier,
            TokenType::EOF,
        ]
    );
    assert_eq!(tokens[1].get_lexeme(), &vec![':', '=']);
}

#[test]
fn lines_are_numbered_from_one() {
    let mut lexer = Lexer::new();
    let first = lexer.lex_line("a").unwrap();
    let _ = lexer.lex_line("!");
    let third = lexer.lex_line("b").unwrap();
    assert_eq!(first[0].get_line(), 1);
    assert_eq!(third[0].get_line(), 3);
    lexer.reset();
    assert_eq!(lexer.lex_line("c").unwrap()[0].get_line(), 1);
}

#[test]
fn identifiers_take_letters_digits_and_underscores() {
    let mut lexer = Lexer::new();
    let tokens = lexer.lex_line("ab_1 é2\tz").unwrap();
    assert_eq!(kinds(&tokens), vec![TokenType::Identifier, TokenType::Identifier, TokenType::Identifier, TokenType::EOF]);
    assert_eq!(tokens[0].get_lexeme(), &vec!['a', 'b', '_', '1']);
    assert_eq!(tokens[1].get_lexeme(), &vec!['é', '2']);
    assert_eq!(tokens[2].get_lexeme(), &vec!['z']);
}

#[test]
fn identifier_names_keep_their_text() {
    assert_eq!(parse_line("foo_bar"), Ok(id("foo_bar")));
}

#[test]
fn token_new_keeps_its_fields() {
    let t = Token::new(TokenType::Dot, 4, 7, vec!['.']);
    assert_eq!(t.get_type(), TokenType::Dot);
    assert_eq!(t.get_line(), 4);
    assert_eq!(t.get_col(), 7);
    assert_eq!(t.get_lexeme(), &vec!['.']);
}

#[test]
fn blank_and_comment_lines_are_epsilon() {
    assert_eq!(parse_line(""), Ok(AstNode::Epsilon));
    assert_eq!(parse_line("   # only a comment"), Ok(AstNode::Epsilon));
}

#[test]
fn definition_is_parsed() {
    assert_eq!(
        parse_line("i := λx.x"),
        Ok(AstNode::Definition { name: "i".to_string(), value: Box::new(abs("x", id("x"))) })
    );
}

#[test]
fn identifier_without_assign_is_a_term() {
    assert_eq!(parse_line("f x"), Ok(app(id("f"), id("x"))));
}

#[test]
fn lambda_in_application_takes_the_rest() {
    assert_eq!(
        parse_line("f λx.x y"),
        Ok(app(id("f"), abs("x", app(id("x"), id("y")))))
    );
}

#[test]
fn abstraction_body_extends_to_close_paren() {
    assert_eq!(
        parse_line("(λx.x y) z"),
        Ok(app(abs("x", app(id("x"), id("y"))), id("z")))
    );
}

#[test]
fn rendering_round_trips() {
    let terms = vec![
        id("x"),
        abs("x", id("x")),
        app(id("f"), abs("x", app(id("x"), id("x")))),
        abs("f", abs("x", app(id("f"), app(id("f"), id("x"))))),
        app(app(id("a"), app(id("b"), id("c"))), abs("y", id("y"))),
    ];
    for t in terms {
        let text = t.render();
        assert_eq!(parse_line(&text), Ok(t));
    }
}

#[test]
fn rendering_forms() {
    assert_eq!(app(id("f"), abs("x", id("x"))).render(), "(f λx.x)");
    assert_eq!(
        AstNode::Definition { name: "k".to_string(), value: Box::new(id("a")) }.render(),
        "k := a"
    );
    assert_eq!(AstNode::Epsilon.render(), "ε");
}

#[test]
fn token_copy_keeps_its_fields() {
    let t = Token::new(TokenType::Identifier, 2, 5, vec!['a', 'b']);
    let c = t.copy();
    assert_eq!(c.get_type(), TokenType::Identifier);
    assert_eq!(c.get_line(), 2);
    assert_eq!(c.get_col(), 5);
    assert_eq!(c.get_lexeme(), &vec!['a', 'b']);
}
