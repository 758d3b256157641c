use nasl::interpreter::Func;
use nasl::interpreter::FunctionArgument;
use nasl::interpreter::Handler;
use nasl::interpreter::NASLFunctions;
use nasl::interpreter::ResultType;
use nasl::interpreter::RuntimeEnvironment;

fn chars(s: &str) -> Vec<char> {
    s.chars().collect()
}

fn arg(value: &str) -> FunctionArgument {
    FunctionArgument {
        name: None,
        value: chars(value),
    }
}

#[test]
fn parameter_substitution_before_dispatch() {
    let mut env = RuntimeEnvironment::new();
    env.insert(chars("description"), chars("1"));
    let funcs = NASLFunctions::default();
    match funcs.run(&chars("if"), vec![arg("description")], &env) {
        Ok(ResultType::IfResult(true)) => {}
        r => panic!("substituted condition should hold, got {:?}", r),
    }
}

#[test]
fn unregistered_call_names_function_and_count() {
    let funcs = NASLFunctions::default();
    let env = RuntimeEnvironment::new();
    match funcs.run(&chars("foo"), vec![arg("1"), arg("2")], &env) {
        Err(e) => assert_eq!(chars("foo with 2 arguments is not registered"), e.description),
        r => panic!("an unregistered call must not succeed, got {:?}", r),
    }
}

#[test]
fn wrong_arity_is_unregistered() {
    // the builtins take exactly one argument; a different count matches no
    // registered function
    let funcs = NASLFunctions::default();
    let env = RuntimeEnvironment::new();
    match funcs.run(&chars("exit"), vec![], &env) {
        Err(e) => assert_eq!(chars("exit with 0 arguments is not registered"), e.description),
        r => panic!("wrong arity must not dispatch, got {:?}", r),
    }
}

#[test]
fn exit_parses_its_code() {
    let funcs = NASLFunctions::default();
    let env = RuntimeEnvironment::new();
    match funcs.run(&chars("exit"), vec![arg("42")], &env) {
        Ok(ResultType::Exit(42)) => {}
        r => panic!("expected exit code 42, got {:?}", r),
    }
    match funcs.run(&chars("exit"), vec![arg("-7")], &env) {
        Ok(ResultType::Exit(-7)) => {}
        r => panic!("expected exit code -7, got {:?}", r),
    }
}

#[test]
fn exit_rejects_a_non_number() {
    let funcs = NASLFunctions::default();
    let env = RuntimeEnvironment::new();
    match funcs.run(&chars("exit"), vec![arg("4x2")], &env) {
        Err(e) => assert_eq!(chars("exit expects a numeric argument"), e.description),
        r => panic!("a non-numeric code must fail, got {:?}", r),
    }
}

#[test]
fn if_reports_the_condition() {
    let funcs = NASLFunctions::default();
    let env = RuntimeEnvironment::new();
    match funcs.run(&chars("if"), vec![arg("0")], &env) {
        Ok(ResultType::IfResult(false)) => {}
        r => panic!("zero is false, got {:?}", r),
    }
    match funcs.run(&chars("if"), vec![arg("-3")], &env) {
        Ok(ResultType::IfResult(true)) => {}
        r => panic!("a non-zero value is true, got {:?}", r),
    }
}

#[test]
fn handler_arity_check_message() {
    let f = Func {
        name: chars("exit"),
        arg_len: 1,
        handler: Handler::Exit,
    };
    let env = RuntimeEnvironment::new();
    match f.run(vec![arg("1"), arg("2")], &env) {
        Err(e) => assert_eq!(chars("exit expects 2 arguments but got 1"), e.description),
        r => panic!("two arguments must be refused, got {:?}", r),
    }
}

#[test]
fn handler_arity_message_with_two_digit_count() {
    let f = Func {
        name: chars("exit"),
        arg_len: 1,
        handler: Handler::Exit,
    };
    let env = RuntimeEnvironment::new();
    let many: Vec<FunctionArgument> = (0..12).map(|_| arg("1")).collect();
    match f.run(many, &env) {
        Err(e) => assert_eq!(chars("exit expects 12 arguments but got 1"), e.description),
        r => panic!("twelve arguments must be refused, got {:?}", r),
    }
}

#[test]
fn first_registered_match_wins() {
    let mut funcs = NASLFunctions::default();
    // shadowing the builtin by name and arity changes nothing: the builtin
    // was registered first
    funcs.register(Func {
        name: chars("exit"),
        arg_len: 1,
        handler: Handler::If,
    });
    let env = RuntimeEnvironment::new();
    match funcs.run(&chars("exit"), vec![arg("0")], &env) {
        Ok(ResultType::Exit(0)) => {}
        r => panic!("the first registration must win, got {:?}", r),
    }
}

#[test]
fn registered_extension_is_dispatched() {
    let mut funcs = NASLFunctions::default();
    funcs.register(Func {
        name: chars("cond"),
        arg_len: 1,
        handler: Handler::If,
    });
    let env = RuntimeEnvironment::new();
    match funcs.run(&chars("cond"), vec![arg("5")], &env) {
        Ok(ResultType::IfResult(true)) => {}
        r => panic!("the extension must be found, got {:?}", r),
    }
}

#[test]
fn later_environment_entry_shadows_earlier() {
    let mut env = RuntimeEnvironment::new();
    env.insert(chars("a"), chars("1"));
    env.insert(chars("a"), chars("0"));
    let funcs = NASLFunctions::default();
    match funcs.run(&chars("if"), vec![arg("a")], &env) {
        Ok(ResultType::IfResult(false)) => {}
        r => panic!("the later insertion must win, got {:?}", r),
    }
}
