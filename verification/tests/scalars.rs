use nasl::decoder::BytesToChar;
use nasl::interpreter::interpret;
use nasl::interpreter::InterpretResult;
use nasl::interpreter::RuntimeEnvironment;
use nasl::lexer::Lexer;
use nasl::lexer::Token;
use nasl::text::parse_i32;

fn chars(s: &str) -> Vec<char> {
    s.chars().collect()
}

fn tokens_of(s: &str) -> Vec<Token> {
    let mut lexer = Lexer::new(chars(s));
    let mut out = vec![];
    while let Some(t) = lexer.next() {
        out.push(t);
    }
    out
}

#[test]
fn decoder_keeps_adjacent_wide_scalars_apart() {
    // the two encoded forms are adjacent with no separating ASCII byte
    let mut d = BytesToChar::new("䉂⌣".as_bytes().to_vec());
    assert_eq!(Some('䉂'), d.next());
    assert_eq!(Some('⌣'), d.next());
    assert_eq!(None, d.next());
}

#[test]
fn decoder_passes_ascii_through() {
    let mut d = BytesToChar::new(b"ab".to_vec());
    assert_eq!(Some('a'), d.next());
    assert_eq!(Some('b'), d.next());
    assert_eq!(None, d.next());
}

#[test]
fn decoder_mixes_ascii_and_wide_scalars() {
    let mut d = BytesToChar::new("a䉂b".as_bytes().to_vec());
    assert_eq!(Some('a'), d.next());
    assert_eq!(Some('䉂'), d.next());
    assert_eq!(Some('b'), d.next());
    assert_eq!(None, d.next());
}

#[test]
fn decoder_four_byte_scalar() {
    let mut d = BytesToChar::new("🙂".as_bytes().to_vec());
    assert_eq!(Some('🙂'), d.next());
    assert_eq!(None, d.next());
}

#[test]
fn decoder_drops_truncated_tail() {
    // the first two bytes of a three-byte encoding, then nothing
    let mut d = BytesToChar::new(vec![0xe4, 0x89]);
    assert_eq!(None, d.next());
}

#[test]
fn decoder_drops_invalid_run() {
    // a byte no encoding uses never decodes; the following ASCII byte is
    // consumed with the dropped buffer
    let mut d = BytesToChar::new(vec![0xff, 0x41]);
    assert_eq!(None, d.next());
}

#[test]
fn decode_all_feeds_the_pipeline() {
    let mut d = BytesToChar::new("exit(42);".as_bytes().to_vec());
    let input = d.decode_all();
    assert_eq!(chars("exit(42);"), input);
    assert_eq!(
        InterpretResult::Exit(42),
        interpret(Lexer::new(input), &RuntimeEnvironment::new(), None)
    );
}

#[test]
fn maximal_munch_never_splits_a_word() {
    assert_eq!(vec![Token::Word(chars("ab12cd"))], tokens_of("ab12cd"));
}

#[test]
fn tokenizer_skips_leading_whitespace() {
    assert_eq!(vec![Token::Semicolon], tokens_of("  \r\n\t;"));
}

#[test]
fn tokenizer_stops_at_sentinel() {
    assert_eq!(
        vec![Token::Word(chars("a"))],
        tokens_of("a\0b")
    );
}

#[test]
fn illegal_token_carries_the_rest_of_the_input() {
    assert_eq!(
        vec![
            Token::Word(chars("ex")),
            Token::Illegal(chars("!t")),
            Token::Word(chars("t")),
        ],
        tokens_of("ex!t")
    );
}

#[test]
fn parse_i32_bounds_and_shapes() {
    assert_eq!(Some(0), parse_i32(&chars("0")));
    assert_eq!(Some(7), parse_i32(&chars("+7")));
    assert_eq!(Some(7), parse_i32(&chars("007")));
    assert_eq!(Some(-42), parse_i32(&chars("-42")));
    assert_eq!(Some(i32::MAX), parse_i32(&chars("2147483647")));
    assert_eq!(Some(i32::MIN), parse_i32(&chars("-2147483648")));
    assert_eq!(None, parse_i32(&chars("2147483648")));
    assert_eq!(None, parse_i32(&chars("-2147483649")));
    assert_eq!(None, parse_i32(&chars("")));
    assert_eq!(None, parse_i32(&chars("-")));
    assert_eq!(None, parse_i32(&chars("4a")));
    assert_eq!(None, parse_i32(&chars(" 1")));
}
