//! The interpreter: a registry of named, fixed-arity functions, and a
//! single-pass state machine that consumes the token stream, dispatches
//! completed calls with parameter substitution, and folds call outcomes
//! into control flow.
//!
//! A false `if` condition gates everything up to its own `;` and the whole
//! immediately following statement. A dispatch error moves the machine to a
//! failure state whose reason the next step reports, and `exit` ends the run
//! at once. The spec-level model is `interp_from`, built from `token_at`,
//! `step_model` and `dispatch_model`.

use crate::lexer::Lexer;
use crate::lexer::Token;
use crate::lexer::TokenModel;
use crate::lexer::token_at;
use crate::lexer::lemma_token_at_bounds;
use crate::lexer::skip_ws;
use crate::lexer::char_at;
use crate::lexer::alphanumeric;
use crate::text::append_chars;
use crate::text::append_str;
use crate::text::chars_eq;
use crate::text::copy_chars;
use crate::text::dec_chars;
use crate::text::dec_digits;
use crate::text::parse_i32;
use crate::text::parse_i32_spec;
use crate::text::str_to_chars;
use vstd::prelude::*;

verus! {

/// One argument of a call: an optional name, and a raw text value. A
/// positional argument has no name.
#[derive(Clone, Debug)]
pub struct FunctionArgument {
    pub name: Option<Vec<char>>,
    pub value: Vec<char>,
}

/// The mathematical shape of a `FunctionArgument`.
pub struct ArgModel {
    pub name: Option<Seq<char>>,
    pub value: Seq<char>,
}

impl View for FunctionArgument {
    type V = ArgModel;

    open spec fn view(&self) -> ArgModel {
        ArgModel {
            name: match self.name {
                Some(n) => Some(n@),
                None => None,
            },
            value: self.value@,
        }
    }
}

/// The shape of a sequence of arguments.
pub open spec fn args_model(s: Seq<FunctionArgument>) -> Seq<ArgModel> {
    s.map_values(|a: FunctionArgument| a@)
}

/// The outcome of one dispatched call.
#[derive(Debug)]
pub enum ResultType {
    /// `exit` was called: end the run with this code.
    Exit(i32),
    /// `if` was called: whether the condition held.
    IfResult(bool),
    /// An outcome a caller-supplied handler may report for a name it could
    /// not serve.
    NotFound(Vec<char>),
}

/// The mathematical shape of a `ResultType`.
pub enum ResultModel {
    Exit(int),
    IfResult(bool),
    NotFound(Seq<char>),
}

impl View for ResultType {
    type V = ResultModel;

    open spec fn view(&self) -> ResultModel {
        match self {
            ResultType::Exit(c) => ResultModel::Exit(*c as int),
            ResultType::IfResult(b) => ResultModel::IfResult(*b),
            ResultType::NotFound(v) => ResultModel::NotFound(v@),
        }
    }
}

/// The behaviour of a registered function: one variant per builtin.
#[derive(Clone, Copy, Debug)]
pub enum Handler {
    /// Parse the single argument as a signed integer and request an exit
    /// with that code.
    Exit,
    /// Parse the single argument as a signed integer and report whether it
    /// is non-zero.
    If,
}

/// A registered function: its name, its required argument count, and its
/// behaviour.
#[derive(Clone, Debug)]
pub struct Func {
    pub name: Vec<char>,
    pub arg_len: usize,
    pub handler: Handler,
}

/// The mathematical shape of a `Func`.
pub struct FuncModel {
    pub name: Seq<char>,
    pub arg_len: nat,
    pub handler: Handler,
}

impl View for Func {
    type V = FuncModel;

    open spec fn view(&self) -> FuncModel {
        FuncModel { name: self.name@, arg_len: self.arg_len as nat, handler: self.handler }
    }
}

/// A dispatch error, with a description that names what went wrong.
#[derive(Clone, Debug)]
pub struct UnexpectedError {
    pub description: Vec<char>,
}

/// The description of an arity mismatch, as the argument-count check
/// phrases it.
pub open spec fn args_len_desc(name: Seq<char>, got: nat, expected: nat) -> Seq<char> {
    name + " expects "@ + dec_digits(got) + " arguments but got "@ + dec_digits(expected)
}

/// The description of a call whose name and argument count matched no
/// registered function; it embeds both.
pub open spec fn not_found_desc(name: Seq<char>, arg_len: nat) -> Seq<char> {
    name + " with "@ + dec_digits(arg_len) + " arguments is not registered"@
}

/// The description of an argument that a builtin could not parse as a
/// number; it names the builtin.
pub open spec fn not_numeric_desc(name: Seq<char>) -> Seq<char> {
    name + " expects a numeric argument"@
}

impl UnexpectedError {
    /// The arity-mismatch error.
    pub fn args_len(name: &Vec<char>, args_len: usize, expected: usize) -> (r: UnexpectedError)
        ensures
            r.description@ == args_len_desc(name@, args_len as nat, expected as nat),
    {
        let mut d = copy_chars(name);
        append_str(&mut d, " expects ");
        let got = dec_chars(args_len);
        append_chars(&mut d, &got);
        append_str(&mut d, " arguments but got ");
        let want = dec_chars(expected);
        append_chars(&mut d, &want);
        UnexpectedError { description: d }
    }

    /// The unregistered-call error; it names the requested function and the
    /// argument count.
    pub fn not_found(name: &Vec<char>, arg_len: usize) -> (r: UnexpectedError)
        ensures
            r.description@ == not_found_desc(name@, arg_len as nat),
    {
        let mut d = copy_chars(name);
        append_str(&mut d, " with ");
        let got = dec_chars(arg_len);
        append_chars(&mut d, &got);
        append_str(&mut d, " arguments is not registered");
        UnexpectedError { description: d }
    }

    /// The argument-type error of a builtin that expected a number.
    pub fn not_numeric(name: &Vec<char>) -> (r: UnexpectedError)
        ensures
            r.description@ == not_numeric_desc(name@),
    {
        let mut d = copy_chars(name);
        append_str(&mut d, " expects a numeric argument");
        UnexpectedError { description: d }
    }
}

/// The read-only mapping from parameter name to substitution text that a
/// run consults when it substitutes call arguments. A later insertion for
/// the same name shadows an earlier one.
#[derive(Debug)]
pub struct RuntimeEnvironment {
    pub entries: Vec<(Vec<char>, Vec<char>)>,
}

impl RuntimeEnvironment {
    /// The mapping that a list of insertions builds up, later entries
    /// shadowing earlier ones.
    pub open spec fn entries_map(entries: Seq<(Vec<char>, Vec<char>)>) -> Map<Seq<char>, Seq<char>>
        decreases entries.len(),
    {
        if entries.len() == 0 {
            Map::empty()
        } else {
            Self::entries_map(entries.drop_last()).insert(
                entries.last().0@,
                entries.last().1@,
            )
        }
    }
}

impl View for RuntimeEnvironment {
    type V = Map<Seq<char>, Seq<char>>;

    open spec fn view(&self) -> Map<Seq<char>, Seq<char>> {
        RuntimeEnvironment::entries_map(self.entries@)
    }
}

impl RuntimeEnvironment {
    pub fn new() -> (r: RuntimeEnvironment)
        ensures
            r@ == Map::<Seq<char>, Seq<char>>::empty(),
    {
        let r = RuntimeEnvironment { entries: Vec::new() };
        proof {
            assert(r.entries@ =~= Seq::<(Vec<char>, Vec<char>)>::empty());
        }
        r
    }

    /// Adds a mapping, shadowing any earlier one for the same name.
    pub fn insert(&mut self, key: Vec<char>, value: Vec<char>)
        ensures
            final(self)@ == old(self)@.insert(key@, value@),
    {
        self.entries.push((key, value));
        proof {
            assert(self.entries@.drop_last() =~= old(self).entries@);
        }
    }

    /// Looks a name up, honouring shadowing.
    pub fn get(&self, key: &Vec<char>) -> (r: Option<&Vec<char>>)
        ensures
            match r {
                Some(v) => self@.contains_key(key@) && v@ == self@[key@],
                None => !self@.contains_key(key@),
            },
    {
        proof {
            assert(self.entries@.take(self.entries@.len() as int) =~= self.entries@);
        }
        let mut i: usize = self.entries.len();
        while i > 0
            invariant
                0 <= i <= self.entries@.len(),
                self@.contains_key(key@) <==> Self::entries_map(
                    self.entries@.take(i as int),
                ).contains_key(key@),
                self@.contains_key(key@) ==> self@[key@] == Self::entries_map(
                    self.entries@.take(i as int),
                )[key@],
            decreases i,
        {
            let e = &self.entries[i - 1];
            proof {
                let t = self.entries@.take(i as int);
                assert(t.drop_last() =~= self.entries@.take(i as int - 1));
                assert(t.last() == self.entries@[i as int - 1]);
            }
            if chars_eq(&e.0, key) {
                return Some(&e.1);
            }
            i = i - 1;
        }
        proof {
            assert(self.entries@.take(0) =~= Seq::<(Vec<char>, Vec<char>)>::empty());
        }
        None
    }
}

/// The builtin registry: `exit(code)` and `if(cond)`, each of one argument.
pub open spec fn builtin_funcs() -> Seq<FuncModel> {
    seq![
        FuncModel { name: "exit"@, arg_len: 1 as nat, handler: Handler::Exit },
        FuncModel { name: "if"@, arg_len: 1 as nat, handler: Handler::If },
    ]
}

/// What a builtin does once dispatch has chosen it: it checks the argument
/// count, parses the single argument as a signed integer, and either
/// requests an exit or reports the condition; the errors carry the
/// descriptions above.
pub open spec fn handler_model(h: Handler, name: Seq<char>, args: Seq<ArgModel>) -> Result<
    ResultModel,
    Seq<char>,
> {
    if args.len() != 1 {
        Err(args_len_desc(name, args.len(), 1))
    } else {
        match parse_i32_spec(args[0].value) {
            Some(v) => Ok(
                match h {
                    Handler::Exit => ResultModel::Exit(v),
                    Handler::If => ResultModel::IfResult(v != 0),
                },
            ),
            None => Err(not_numeric_desc(name)),
        }
    }
}

/// One argument after parameter substitution: a value that names an
/// environment entry is replaced by that entry's text; the argument's own
/// name is kept.
pub open spec fn substitute_one(a: ArgModel, env: Map<Seq<char>, Seq<char>>) -> ArgModel {
    if env.contains_key(a.value) {
        ArgModel { name: a.name, value: env[a.value] }
    } else {
        a
    }
}

/// Parameter substitution over a whole argument list, order preserved.
pub open spec fn substitute(args: Seq<ArgModel>, env: Map<Seq<char>, Seq<char>>) -> Seq<ArgModel> {
    args.map_values(|a: ArgModel| substitute_one(a, env))
}

/// Parameter substitution, spelled out: every argument whose value matches
/// a key of the environment has its value replaced by the mapped text and
/// keeps its own name; every other argument is untouched; and the argument
/// list keeps its length and order.
pub proof fn lemma_substitution(args: Seq<ArgModel>, env: Map<Seq<char>, Seq<char>>, i: int)
    requires
        0 <= i < args.len(),
    ensures
        substitute(args, env).len() == args.len(),
        env.contains_key(args[i].value) ==> substitute(args, env)[i] == (ArgModel {
            name: args[i].name,
            value: env[args[i].value],
        }),
        !env.contains_key(args[i].value) ==> substitute(args, env)[i] == args[i],
{
    assert(substitute(args, env)[i] == substitute_one(args[i], env));
}

/// The first registered function whose name and argument count both match:
/// registration order decides between duplicates.
pub open spec fn find_func(fs: Seq<FuncModel>, name: Seq<char>, n: nat) -> Option<FuncModel>
    decreases fs.len(),
{
    if fs.len() == 0 {
        None
    } else if fs.first().name == name && fs.first().arg_len == n {
        Some(fs.first())
    } else {
        find_func(fs.drop_first(), name, n)
    }
}

/// Dispatch: substitute parameters into the arguments, find the first
/// matching function, and run it; a call that matches nothing yields the
/// unregistered-call error, never a silent success.
pub open spec fn dispatch_model(
    name: Seq<char>,
    args: Seq<ArgModel>,
    env: Map<Seq<char>, Seq<char>>,
    fs: Seq<FuncModel>,
) -> Result<ResultModel, Seq<char>> {
    match find_func(fs, name, args.len()) {
        None => Err(not_found_desc(name, args.len())),
        Some(f) => handler_model(f.handler, name, substitute(args, env)),
    }
}

/// The shape of a dispatch result.
pub open spec fn run_result_model(r: Result<ResultType, UnexpectedError>) -> Result<
    ResultModel,
    Seq<char>,
> {
    match r {
        Ok(rt) => Ok(rt@),
        Err(e) => Err(e.description@),
    }
}

/// Runs a handler on already-substituted arguments.
fn run_handler(h: Handler, name: &Vec<char>, args: &Vec<FunctionArgument>) -> (r: Result<
    ResultType,
    UnexpectedError,
>)
    ensures
        run_result_model(r) == handler_model(h, name@, args_model(args@)),
{
    if args.len() != 1 {
        return Err(UnexpectedError::args_len(name, args.len(), 1));
    }
    proof {
        assert(args_model(args@)[0] == args@[0]@);
    }
    match parse_i32(&args[0].value) {
        Some(i) => match h {
            Handler::Exit => Ok(ResultType::Exit(i)),
            Handler::If => Ok(ResultType::IfResult(i != 0)),
        },
        None => Err(UnexpectedError::not_numeric(name)),
    }
}

impl Func {
    /// Runs this function directly, without substitution or lookup, as a
    /// handler invoked under this function's own name. The builtin handlers
    /// never consult the environment: substitution belongs to dispatch.
    #[allow(unused_variables)]
    pub fn run(self, args: Vec<FunctionArgument>, parameter: &RuntimeEnvironment) -> (r: Result<
        ResultType,
        UnexpectedError,
    >)
        ensures
            run_result_model(r) == handler_model(self.handler, self.name@, args_model(args@)),
    {
        run_handler(self.handler, &self.name, &args)
    }
}

/// The registry of callable functions; immutable during a run.
#[derive(Clone, Debug)]
pub struct NASLFunctions {
    pub functions: Vec<Func>,
}

impl View for NASLFunctions {
    type V = Seq<FuncModel>;

    open spec fn view(&self) -> Seq<FuncModel> {
        self.functions@.map_values(|f: Func| f@)
    }
}

impl NASLFunctions {
    pub fn new() -> (r: NASLFunctions)
        ensures
            r@ == Seq::<FuncModel>::empty(),
    {
        let r = NASLFunctions { functions: Vec::new() };
        proof {
            assert(r@ =~= Seq::<FuncModel>::empty());
        }
        r
    }

    /// Adds a function at the end: an existing function with the same name
    /// and argument count keeps precedence.
    pub fn register(&mut self, fun: Func)
        ensures
            final(self)@ == old(self)@.push(fun@),
    {
        let ghost fv = fun@;
        self.functions.push(fun);
        proof {
            assert(self@ =~= old(self)@.push(fv));
        }
    }

    /// Dispatches a call: substitutes parameters into the arguments, finds
    /// the first registered function matching the name and the argument
    /// count, and runs it. A call that matches nothing always yields the
    /// unregistered-call error, whose description embeds the requested name
    /// and argument count.
    pub fn run(&self, name: &Vec<char>, args: Vec<FunctionArgument>, parameter: &RuntimeEnvironment)
        -> (r: Result<ResultType, UnexpectedError>)
        ensures
            run_result_model(r) == dispatch_model(name@, args_model(args@), parameter@, self@),
            find_func(self@, name@, args@.len() as nat) is None ==> (r matches Err(e)
                && e.description@ == not_found_desc(name@, args@.len() as nat)),
    {
        let ghost target = substitute(args_model(args@), parameter@);
        // substitute parameters into the arguments
        let mut ra: Vec<FunctionArgument> = Vec::new();
        proof {
            assert(args_model(ra@) =~= target.take(0));
        }
        let mut i: usize = 0;
        while i < args.len()
            invariant
                0 <= i <= args@.len(),
                target == substitute(args_model(args@), parameter@),
                target.len() == args@.len(),
                args_model(ra@) == target.take(i as int),
            decreases args@.len() - i,
        {
            let a = &args[i];
            let value = match parameter.get(&a.value) {
                Some(v) => copy_chars(v),
                None => copy_chars(&a.value),
            };
            let name_copy = match &a.name {
                Some(n) => Some(copy_chars(n)),
                None => None,
            };
            let sub = FunctionArgument { name: name_copy, value };
            proof {
                assert(args_model(args@)[i as int] == args@[i as int]@);
                assert(sub@ == substitute_one(args@[i as int]@, parameter@));
                assert(target[i as int] == substitute_one(args_model(args@)[i as int], parameter@));
            }
            let ghost subv = sub@;
            let ghost ra_old = ra@;
            ra.push(sub);
            proof {
                assert(ra@.len() == ra_old.len() + 1);
                assert(args_model(ra_old).len() == i as int);
                assert forall|j: int| 0 <= j <= i as int implies args_model(ra@)[j] == target.take(
                    i as int + 1,
                )[j] by {
                    if j < i as int {
                        assert(ra@[j] == ra_old[j]);
                        assert(args_model(ra@)[j] == ra_old[j]@);
                        assert(args_model(ra_old)[j] == ra_old[j]@);
                        assert(args_model(ra_old)[j] == target.take(i as int)[j]);
                    } else {
                        assert(ra@[j] == ra_old.push(ra@[i as int])[i as int]);
                        assert(ra@[j]@ == subv);
                    }
                }
                assert(args_model(ra@) =~= target.take(i as int + 1));
            }
            i = i + 1;
        }
        proof {
            assert(target.take(args@.len() as int) =~= target);
        }
        // find the first function whose name and argument count match
        let n = args.len();
        let mut idx: usize = 0;
        proof {
            assert(self@.skip(0) =~= self@);
        }
        while idx < self.functions.len()
            invariant
                0 <= idx <= self.functions@.len(),
                self@.len() == self.functions@.len(),
                find_func(self@, name@, n as nat) == find_func(
                    self@.skip(idx as int),
                    name@,
                    n as nat,
                ),
                n as int == args@.len(),
                target == substitute(args_model(args@), parameter@),
                args_model(ra@) == target,
            decreases self.functions@.len() - idx,
        {
            let f = &self.functions[idx];
            proof {
                assert(self@[idx as int] == self.functions@[idx as int]@);
                assert(self@.skip(idx as int).first() == self@[idx as int]);
                assert(self@.skip(idx as int).drop_first() =~= self@.skip(idx as int + 1));
            }
            if f.arg_len == n && chars_eq(&f.name, name) {
                return run_handler(f.handler, name, &ra);
            }
            idx = idx + 1;
        }
        proof {
            assert(self@.skip(self.functions@.len() as int) =~= Seq::<FuncModel>::empty());
        }
        Err(UnexpectedError::not_found(name, n))
    }
}

impl Default for NASLFunctions {
    /// The registry a run starts from: the two builtins, `exit` first.
    fn default() -> (r: NASLFunctions)
        ensures
            r@ == builtin_funcs(),
    {
        let mut result = NASLFunctions::new();
        result.register(Func { name: str_to_chars("exit"), arg_len: 1, handler: Handler::Exit });
        result.register(Func { name: str_to_chars("if"), arg_len: 1, handler: Handler::If });
        proof {
            assert(result@ =~= builtin_funcs());
        }
        result
    }
}

/// The state the interpreter carries between tokens; exactly one instance
/// is live during a run.
#[derive(Debug)]
pub enum State {
    /// Between statements.
    Init,
    /// A word was seen; a `(` may follow.
    InWord(Vec<char>),
    /// Inside an open argument list: the call's name and the arguments so
    /// far.
    InFunction(Vec<char>, Vec<FunctionArgument>),
    /// A call completed without exiting; its outcome decides what the next
    /// `;` does.
    ResultFunction(ResultType),
    /// A false condition was sealed by its `;`: every token of the next
    /// statement is discarded, up to and including its `;`.
    Suppressed,
    /// A dispatch failed; the next step reports the reason.
    Failure(Vec<char>),
}

/// The mathematical shape of a `State`.
pub enum StateModel {
    Init,
    InWord(Seq<char>),
    InFunction(Seq<char>, Seq<ArgModel>),
    ResultFunction(ResultModel),
    Suppressed,
    Failure(Seq<char>),
}

impl View for State {
    type V = StateModel;

    open spec fn view(&self) -> StateModel {
        match self {
            State::Init => StateModel::Init,
            State::InWord(w) => StateModel::InWord(w@),
            State::InFunction(f, a) => StateModel::InFunction(f@, args_model(a@)),
            State::ResultFunction(rt) => StateModel::ResultFunction(rt@),
            State::Suppressed => StateModel::Suppressed,
            State::Failure(x) => StateModel::Failure(x@),
        }
    }
}

/// The outcome of a whole run.
#[derive(Debug)]
pub enum InterpretResult {
    /// `exit` was called with this code.
    Exit(i32),
    /// The token stream ended.
    EOF,
    /// A lexical error, or a dispatch failure's reason.
    Invalid(Vec<char>),
    /// A token arrived in a state with no valid transition.
    NotImplemented,
}

/// The mathematical shape of an `InterpretResult`.
pub enum InterpretModel {
    Exit(int),
    EOF,
    Invalid(Seq<char>),
    NotImplemented,
}

impl View for InterpretResult {
    type V = InterpretModel;

    open spec fn view(&self) -> InterpretModel {
        match self {
            InterpretResult::Exit(c) => InterpretModel::Exit(*c as int),
            InterpretResult::EOF => InterpretModel::EOF,
            InterpretResult::Invalid(v) => InterpretModel::Invalid(v@),
            InterpretResult::NotImplemented => InterpretModel::NotImplemented,
        }
    }
}

impl vstd::std_specs::cmp::PartialEqSpecImpl for InterpretResult {
    open spec fn obeys_eq_spec() -> bool {
        true
    }

    open spec fn eq_spec(&self, other: &InterpretResult) -> bool {
        self@ == other@
    }
}

impl PartialEq for InterpretResult {
    fn eq(&self, other: &InterpretResult) -> (r: bool) {
        match (self, other) {
            (InterpretResult::Exit(a), InterpretResult::Exit(b)) => *a == *b,
            (InterpretResult::EOF, InterpretResult::EOF) => true,
            (InterpretResult::Invalid(a), InterpretResult::Invalid(b)) => chars_eq(a, b),
            (InterpretResult::NotImplemented, InterpretResult::NotImplemented) => true,
            _ => false,
        }
    }
}

/// What one step of the machine yields: the run's outcome, or the state to
/// carry to the next token.
#[derive(Debug)]
pub enum Step {
    Done(InterpretResult),
    Next(State),
}

/// The mathematical shape of a `Step`.
pub enum StepModel {
    Done(InterpretModel),
    Next(StateModel),
}

impl View for Step {
    type V = StepModel;

    open spec fn view(&self) -> StepModel {
        match self {
            Step::Done(r) => StepModel::Done(r@),
            Step::Next(st) => StepModel::Next(st@),
        }
    }
}

/// The transition table of the interpreter, one arm per (state, token)
/// shape, earlier arms taking precedence:
/// a pending failure reports its reason; an `Illegal` token is fatal in any
/// state; a word inside an open call is a new positional argument; `(`
/// after a word opens the call; `)` dispatches it, exiting at once on
/// `exit`, moving to `ResultFunction` on any other outcome, and to
/// `Failure` on a dispatch error; after a false condition, its own `;`
/// starts suppression and everything before that `;` is discarded; the
/// suppressed statement ends at the next `;`; after any other completed
/// call, `;` returns to `Init`; and a token with no valid transition ends
/// the run with `NotImplemented`.
pub open spec fn step_model(
    st: StateModel,
    t: TokenModel,
    env: Map<Seq<char>, Seq<char>>,
    fs: Seq<FuncModel>,
) -> StepModel {
    match (st, t) {
        (StateModel::Failure(x), _) => StepModel::Done(InterpretModel::Invalid(x)),
        (_, TokenModel::Illegal(a)) => StepModel::Done(InterpretModel::Invalid(a)),
        (StateModel::InFunction(f, ar), TokenModel::Word(a)) => StepModel::Next(
            StateModel::InFunction(f, ar.push(ArgModel { name: None, value: a })),
        ),
        (StateModel::InWord(f), TokenModel::LParen) => StepModel::Next(
            StateModel::InFunction(f, Seq::empty()),
        ),
        (StateModel::InFunction(f, a), TokenModel::RParen) => match dispatch_model(f, a, env, fs) {
            Ok(ResultModel::Exit(rc)) => StepModel::Done(InterpretModel::Exit(rc)),
            Ok(rt) => StepModel::Next(StateModel::ResultFunction(rt)),
            Err(e) => StepModel::Next(StateModel::Failure(e)),
        },
        (StateModel::ResultFunction(ResultModel::IfResult(false)), TokenModel::Semicolon) => StepModel::Next(
            StateModel::Suppressed,
        ),
        (StateModel::ResultFunction(ResultModel::IfResult(false)), _) => StepModel::Next(
            StateModel::ResultFunction(ResultModel::IfResult(false)),
        ),
        (StateModel::ResultFunction(_), TokenModel::Semicolon) => StepModel::Next(StateModel::Init),
        (StateModel::Suppressed, TokenModel::Semicolon) => StepModel::Next(StateModel::Init),
        (StateModel::Suppressed, _) => StepModel::Next(StateModel::Suppressed),
        (_, TokenModel::Semicolon) => StepModel::Done(InterpretModel::NotImplemented),
        (_, TokenModel::Word(a)) => StepModel::Next(StateModel::InWord(a)),
        (_, TokenModel::LParen) => StepModel::Done(InterpretModel::NotImplemented),
        (_, TokenModel::RParen) => StepModel::Done(InterpretModel::NotImplemented),
    }
}

/// One step of the machine, exactly as `step_model` describes.
pub fn step(
    state: State,
    token: Token,
    functions: &NASLFunctions,
    parameter: &RuntimeEnvironment,
) -> (r: Step)
    ensures
        r@ == step_model(state@, token@, parameter@, functions@),
{
    match (state, token) {
        (State::Failure(x), _) => Step::Done(InterpretResult::Invalid(x)),
        (_, Token::Illegal(a)) => Step::Done(InterpretResult::Invalid(a)),
        (State::InFunction(f, ar), Token::Word(a)) => {
            let ghost old_args = ar@;
            let ghost av = a@;
            let mut args = ar;
            args.push(FunctionArgument { name: None, value: a });
            proof {
                assert(args_model(args@) =~= args_model(old_args).push(
                    ArgModel { name: None, value: av },
                ));
            }
            Step::Next(State::InFunction(f, args))
        },
        (State::InWord(f), Token::LParen) => {
            let empty: Vec<FunctionArgument> = Vec::new();
            proof {
                assert(args_model(empty@) =~= Seq::<ArgModel>::empty());
            }
            Step::Next(State::InFunction(f, empty))
        },
        (State::InFunction(f, a), Token::RParen) => match functions.run(&f, a, parameter) {
            Ok(rt) => match rt {
                ResultType::Exit(rc) => Step::Done(InterpretResult::Exit(rc)),
                other => Step::Next(State::ResultFunction(other)),
            },
            Err(e) => Step::Next(State::Failure(e.description)),
        },
        (State::ResultFunction(ResultType::IfResult(false)), Token::Semicolon) => Step::Next(
            State::Suppressed,
        ),
        (State::ResultFunction(ResultType::IfResult(false)), _) => Step::Next(
            State::ResultFunction(ResultType::IfResult(false)),
        ),
        (State::ResultFunction(_), Token::Semicolon) => Step::Next(State::Init),
        (State::Suppressed, Token::Semicolon) => Step::Next(State::Init),
        (State::Suppressed, _) => Step::Next(State::Suppressed),
        (_, Token::Semicolon) => Step::Done(InterpretResult::NotImplemented),
        (_, Token::Word(a)) => Step::Next(State::InWord(a)),
        (_, Token::LParen) => Step::Done(InterpretResult::NotImplemented),
        (_, Token::RParen) => Step::Done(InterpretResult::NotImplemented),
    }
}

/// The functions a run dispatches into: the caller's registry if one was
/// supplied, the builtins otherwise.
pub open spec fn funcs_of(known: Option<NASLFunctions>) -> Seq<FuncModel> {
    match known {
        Some(f) => f@,
        None => builtin_funcs(),
    }
}

/// The outcome of running the machine from state `st` at cursor `p`: the
/// run ends with `EOF` when the token stream ends, with whatever a step
/// reports as final, and otherwise carries the stepped state to the next
/// token.
pub open spec fn interp_from(
    s: Seq<char>,
    p: int,
    st: StateModel,
    env: Map<Seq<char>, Seq<char>>,
    fs: Seq<FuncModel>,
) -> InterpretModel
    decreases s.len() - p,
    via interp_from_decreases
{
    let tp = token_at(s, p);
    match tp.0 {
        None => InterpretModel::EOF,
        Some(t) => match step_model(st, t, env, fs) {
            StepModel::Done(r) => r,
            StepModel::Next(st2) => interp_from(s, tp.1, st2, env, fs),
        },
    }
}

#[via_fn]
proof fn interp_from_decreases(
    s: Seq<char>,
    p: int,
    st: StateModel,
    env: Map<Seq<char>, Seq<char>>,
    fs: Seq<FuncModel>,
) {
    if 0 <= p <= s.len() {
        lemma_token_at_bounds(s, p);
    }
}

/// Drives the tokenizer to completion from the lexer's current position,
/// starting in `Init` with the given environment and registry, exactly as
/// `interp_from` describes.
pub fn interpret(
    lexer: Lexer,
    parameter: &RuntimeEnvironment,
    known_functions: Option<NASLFunctions>,
) -> (r: InterpretResult)
    requires
        lexer.wf(),
    ensures
        r@ == interp_from(
            lexer.input@,
            lexer.cursor(),
            StateModel::Init,
            parameter@,
            funcs_of(known_functions),
        ),
{
    let ghost fs0 = funcs_of(known_functions);
    let scoped_functions = match known_functions {
        Some(f) => f,
        None => NASLFunctions::default(),
    };
    let mut l = lexer;
    let mut state = State::Init;
    let ghost s = l.input@;
    let ghost p0 = l.cursor();
    loop
        invariant
            l.wf(),
            l.input@ == s,
            s == lexer.input@,
            p0 == lexer.cursor(),
            fs0 == funcs_of(known_functions),
            scoped_functions@ == fs0,
            0 <= l.cursor() <= s.len(),
            interp_from(s, l.cursor(), state@, parameter@, fs0) == interp_from(
                s,
                p0,
                StateModel::Init,
                parameter@,
                fs0,
            ),
        decreases s.len() - l.cursor(),
    {
        let ghost pcur = l.cursor();
        let ghost stv = state@;
        match l.next() {
            None => {
                proof {
                    assert(interp_from(s, pcur, stv, parameter@, fs0) == InterpretModel::EOF);
                }
                return InterpretResult::EOF;
            },
            Some(token) => {
                proof {
                    lemma_token_at_bounds(s, pcur);
                }
                match step(state, token, &scoped_functions, parameter) {
                    Step::Done(res) => {
                        return res;
                    },
                    Step::Next(st2) => {
                        state = st2;
                    },
                }
            },
        }
    }
}

/// An illegal character is fatal: wherever the machine stands short of an
/// already pending failure, if skipping whitespace from the cursor reaches
/// a character that is not punctuation, not the end sentinel and not a word
/// character, the run ends with `Invalid` carrying the rest of the input
/// from that character on, and no further token is consumed.
pub proof fn lemma_illegal_character(
    s: Seq<char>,
    p: int,
    st: StateModel,
    env: Map<Seq<char>, Seq<char>>,
    fs: Seq<FuncModel>,
)
    requires
        0 <= p <= s.len(),
        !(st matches StateModel::Failure(_)),
        ({
            let c = char_at(s, skip_ws(s, p));
            c != '(' && c != ')' && c != ';' && c != '\0' && !alphanumeric(c)
        }),
    ensures
        interp_from(s, p, st, env, fs) == InterpretModel::Invalid(
            s.subrange(skip_ws(s, p), s.len() as int),
        ),
{
    let tp = token_at(s, p);
    assert(tp.0 == Some(TokenModel::Illegal(s.subrange(skip_ws(s, p), s.len() as int))));
}

} // verus!
