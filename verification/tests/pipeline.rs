use nasl::interpreter::interpret;
use nasl::interpreter::InterpretResult;
use nasl::interpreter::RuntimeEnvironment;
use nasl::lexer::Lexer;
use nasl::lexer::Token;

fn chars(s: &str) -> Vec<char> {
    s.chars().collect()
}

fn run_script(script: &str) -> InterpretResult {
    interpret(Lexer::new(chars(script)), &RuntimeEnvironment::new(), None)
}

#[test]
fn it_interprets_exit() {
    let expected: Vec<Token> = vec![
        Token::Word("exit".chars().collect()),
        Token::LParen,
        Token::Word(vec!['4', '2']),
        Token::RParen,
        Token::Semicolon,
    ];
    let mut actual: Vec<Token> = vec![];
    let data = "  \r\nexit(42);";
    let mut lexer = Lexer::new(chars(data));
    while let Some(t) = lexer.next() {
        actual.push(t);
    }
    assert_eq!(expected, actual);

    assert_eq!(
        InterpretResult::Exit(42),
        interpret(Lexer::new(chars(data)), &RuntimeEnvironment::new(), None)
    );
}

#[test]
fn exit_zero_with_sentinel() {
    assert_eq!(InterpretResult::Exit(0), run_script(" exit(0); \0"));
}

#[test]
fn conditional_suppression() {
    let r = run_script("if(0); exit(1);");
    assert_ne!(InterpretResult::Exit(1), r);
    assert_eq!(InterpretResult::EOF, r);
}

#[test]
fn conditional_pass_through() {
    assert_eq!(InterpretResult::Exit(7), run_script("if(1); exit(7);"));
}

#[test]
fn suppression_ends_at_statement_boundary() {
    // the false condition gates only the immediately following statement
    assert_eq!(
        InterpretResult::Exit(5),
        run_script("if(0); exit(1); exit(5);")
    );
}

#[test]
fn parameter_substitution_via_interpret() {
    let mut env = RuntimeEnvironment::new();
    env.insert(chars("description"), chars("1"));
    assert_eq!(
        InterpretResult::Exit(3),
        interpret(Lexer::new(chars("if(description); exit(3);")), &env, None)
    );
}

#[test]
fn unsubstituted_parameter_fails_dispatch() {
    // without the environment entry, `if` receives the literal name and
    // cannot parse it; the failure is reported at the next token
    let r = run_script("if(description); exit(3);");
    assert_eq!(
        InterpretResult::Invalid(chars("if expects a numeric argument")),
        r
    );
}

#[test]
fn illegal_character_stops_run() {
    assert_eq!(InterpretResult::Invalid(chars("&);")), run_script("exit(&);"));
}

#[test]
fn unregistered_call_is_reported() {
    assert_eq!(
        InterpretResult::Invalid(chars("foo with 1 arguments is not registered")),
        run_script("foo(1);")
    );
}

#[test]
fn dispatch_error_reported_on_next_token() {
    assert_eq!(
        InterpretResult::Invalid(chars("exit expects a numeric argument")),
        run_script("exit(abc); exit(2);")
    );
}

#[test]
fn failure_at_stream_end_is_swallowed() {
    // a pending failure is only reported by the next step; if the stream
    // ends first, the run still reports the end of the input
    assert_eq!(InterpretResult::EOF, run_script("foo(1)"));
}

#[test]
fn empty_script_is_end_of_input() {
    assert_eq!(InterpretResult::EOF, run_script(""));
    assert_eq!(InterpretResult::EOF, run_script("   \r\n\t "));
}

#[test]
fn truncated_statement_is_discarded() {
    assert_eq!(InterpretResult::EOF, run_script("exit(42"));
}

#[test]
fn bare_semicolon_is_rejected() {
    assert_eq!(InterpretResult::NotImplemented, run_script(";"));
}

#[test]
fn stray_parens_are_rejected() {
    assert_eq!(InterpretResult::NotImplemented, run_script(")"));
    assert_eq!(InterpretResult::NotImplemented, run_script("(1);"));
    assert_eq!(InterpretResult::NotImplemented, run_script("foo)"));
}
