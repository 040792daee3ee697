use lambda::ast::AstNode;
use lambda::interpreter::{DivergenceError, Interpreter, LineError};
use lambda::lexer::Lexer;
use lambda::parser::{ParseError, Parser};
use lambda::reduce::Environment;
use lambda::lexer::TokenType;

fn id(name: &str) -> AstNode {
    AstNode::Identifier(name.to_string())
}

fn abs(p: &str, body: AstNode) -> AstNode {
    AstNode::Abstraction { parameter: p.to_string(), term: Box::new(body) }
}

fn app(f: AstNode, a: AstNode) -> AstNode {
    AstNode::Application { lhs: Box::new(f), rhs: Box::new(a) }
}

fn parse_line(src: &str) -> AstNode {
    let mut lexer = Lexer::new();
    let tokens = lexer.lex_line(src).expect("line scans");
    Parser::new().parse(tokens).expect("line parses")
}

const DEPTH: usize = 1000;

fn step(src: &str) -> AstNode {
    parse_line(src).reduce(Environment::new(), DEPTH).expect("step ends")
}

fn step_of(t: &AstNode) -> AstNode {
    t.reduce(Environment::new(), DEPTH).expect("step ends")
}

#[test]
fn identity_application() {
    assert_eq!(step("(λx.x) y"), id("y"));
}

#[test]
fn identity_combinator() {
    assert_eq!(step("(λx.x) (λy.y)"), abs("y", id("y")));
}

#[test]
fn k_combinator_discard() {
    let interpreter = Interpreter::new();
    let normal = interpreter.evaluate(parse_line("((λx.(λy.x)) a) b"), 100, DEPTH);
    assert_eq!(normal, Ok(id("a")));
}

#[test]
fn k_combinator_discards_in_one_step() {
    assert_eq!(step("((λx.(λy.x)) a) b"), id("a"));
}

#[test]
fn function_part_is_reduced_before_beta() {
    let mut env = Environment::new();
    env.insert("i".to_string(), abs("x", id("x")));
    assert_eq!(parse_line("i y").reduce(env, DEPTH), Some(id("y")));
}

#[test]
fn shadowing_hides_parameter() {
    let x = "x".to_string();
    assert!(!abs("x", id("x")).free(&x));
    assert!(id("x").free(&x));
}

#[test]
fn free_looks_through_applications() {
    let y = "y".to_string();
    assert!(app(id("a"), abs("x", id("y"))).free(&y));
    assert!(!app(id("a"), abs("y", id("y"))).free(&y));
    assert!(!AstNode::Epsilon.free(&y));
}

#[test]
fn eta_shortcut() {
    assert_eq!(step("λx.(f x)"), id("f"));
}

#[test]
fn no_eta_when_parameter_is_free_in_function() {
    let t = parse_line("λx.(x x)");
    assert_eq!(step_of(&t), t);
}

#[test]
fn normal_form_is_fixed() {
    for src in ["x", "λx.(x y)", "λf.λx.(f (f x))", "(a (b c))"] {
        let t = parse_line(src);
        assert_eq!(step_of(&t), t);
    }
}

#[test]
fn environment_substitutes_and_abstraction_shadows() {
    let mut env = Environment::new();
    env.insert("x".to_string(), id("v"));
    assert_eq!(parse_line("x").reduce(env.copy(), DEPTH), Some(id("v")));
    assert_eq!(parse_line("λx.(x y)").reduce(env.copy(), DEPTH), Some(abs("x", app(id("x"), id("y")))));
    assert_eq!(parse_line("(f x)").reduce(env, DEPTH), Some(app(id("f"), id("v"))));
}

#[test]
fn environment_get_insert_remove() {
    let mut env = Environment::new();
    let a = "a".to_string();
    assert!(env.get(&a).is_none());
    env.insert(a.clone(), id("one"));
    env.insert(a.clone(), id("two"));
    assert_eq!(env.get(&a), Some(&id("two")));
    env.remove(&a);
    assert!(env.get(&a).is_none());
}

#[test]
fn definitions_and_epsilon_are_unchanged() {
    let d = parse_line("i := (λx.x) y");
    assert_eq!(step_of(&d), d);
    assert_eq!(step_of(&AstNode::Epsilon), AstNode::Epsilon);
}

#[test]
fn copies_are_equal() {
    let t = parse_line("λf.(f (g λy.y))");
    assert_eq!(t.clone(), t);
    assert_ne!(t, id("f"));
}

#[test]
fn step_without_end_runs_out_of_depth() {
    let mut env = Environment::new();
    env.insert("x".to_string(), parse_line("(λz.x) q"));
    assert_eq!(parse_line("(λz.x) q").reduce(env, 200), None);
}

#[test]
fn zero_depth_ends_no_step() {
    assert_eq!(id("x").reduce(Environment::new(), 0), None);
    assert_eq!(id("x").reduce(Environment::new(), 1), Some(id("x")));
}

#[test]
fn too_few_steps_diverge() {
    let interpreter = Interpreter::new();
    let t = parse_line("((λx.(λy.x)) a) b");
    assert_eq!(interpreter.evaluate(t, 1, DEPTH), Err(DivergenceError::TooManySteps { steps: 1 }));
}

#[test]
fn zero_steps_always_diverge() {
    let interpreter = Interpreter::new();
    assert_eq!(interpreter.evaluate(id("x"), 0, DEPTH), Err(DivergenceError::TooManySteps { steps: 0 }));
}

#[test]
fn too_little_depth_diverges() {
    let interpreter = Interpreter::new();
    assert_eq!(
        interpreter.evaluate(parse_line("λf.λx.(f (f x))"), 10, 2),
        Err(DivergenceError::TooDeep { step: 0 })
    );
}

#[test]
fn interpret_line_outcomes() {
    let mut interpreter = Interpreter::new();
    assert_eq!(interpreter.interpret_line("# nothing", 50, DEPTH), Ok(None));
    assert_eq!(
        interpreter.interpret_line("(λx.x) y", 50, DEPTH),
        Ok(Some((app(abs("x", id("x")), id("y")), id("y"))))
    );
    assert_eq!(
        interpreter.interpret_line("(a", 50, DEPTH),
        Err(LineError::Parse(ParseError::Unexpected {
            expected: TokenType::CloseParen,
            found: TokenType::EOF,
            line: 3,
            col: 2,
        }))
    );
    assert!(matches!(interpreter.interpret_line("a : b", 50, DEPTH), Err(LineError::Lex(_))));
    assert_eq!(
        interpreter.interpret_line("((λx.(λy.x)) a) b", 1, DEPTH),
        Err(LineError::Divergence(DivergenceError::TooManySteps { steps: 1 }))
    );
}

#[test]
fn definitions_apply_to_later_lines() {
    let mut interpreter = Interpreter::new();
    assert_eq!(interpreter.interpret_line("i y", 50, DEPTH), Ok(Some((app(id("i"), id("y")), app(id("i"), id("y"))))));
    let def = interpreter.interpret_line("i := λx.x", 50, DEPTH).unwrap().unwrap();
    assert_eq!(def.0, def.1);
    assert_eq!(interpreter.interpret_line("i y", 50, DEPTH), Ok(Some((app(id("i"), id("y")), id("y")))));
    interpreter.interpret_line("i := λx.z", 50, DEPTH).unwrap();
    assert_eq!(interpreter.interpret_line("i y", 50, DEPTH), Ok(Some((app(id("i"), id("y")), id("z")))));
}
