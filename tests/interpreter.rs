use chonk::environment::Environment;
use chonk::interpreter::Interpreter;
use chonk::runner::{ChonkError, run};
use chonk::token::{Token, TokenType};
use chonk::value::{RuntimeError, Value, is_truthy};
use chonk::number::Number;

fn outcome(src: &str) -> (Result<(), ChonkError>, Vec<String>) {
    let mut it = Interpreter::new();
    let r = run(src, &mut it, &mut Vec::new());
    (r, it.take_output())
}

fn prints(src: &str) -> Vec<String> {
    let (r, out) = outcome(src);
    assert_eq!(r, Ok(()), "running {src}");
    out
}

fn runtime_error(src: &str) -> RuntimeError {
    match outcome(src).0 {
        Err(ChonkError::Runtime(e)) => e,
        other => panic!("expected a runtime error, got {other:?}"),
    }
}

#[test]
fn multiplication_binds_tighter_than_addition() {
    assert_eq!(prints("echo 1 + 2 * 3;"), vec!["7"]);
}

#[test]
fn strings_concatenate_but_do_not_subtract() {
    assert_eq!(prints("echo \"foo\" + \"bar\";"), vec!["foobar"]);
    assert_eq!(
        runtime_error("echo \"foo\" - \"bar\";"),
        RuntimeError::InvalidOperands { operator: "-".to_string(), line: 1 }
    );
}

#[test]
fn parameters_shadow_globals() {
    assert_eq!(
        prints("x = 1;\nfunc f(x) { return x + 1; }\necho f(10);\necho x;"),
        vec!["11", "1"]
    );
}

#[test]
fn closures_keep_the_frame_they_were_defined_in() {
    assert_eq!(
        prints("func make(n) { func inner() { return n; } return inner; } g = make(42); echo g();"),
        vec!["42"]
    );
    assert_eq!(
        prints(
            "func counter() { c = 0; func step() { c += 1; return c; } return step; }
             s = counter(); echo s(); t = counter(); echo t();"
        ),
        vec!["1", "1"]
    );
}

#[test]
fn logical_operators_short_circuit() {
    assert_eq!(outcome("false && undefined_fn();").0, Ok(()));
    assert_eq!(prints("echo false && undefined_fn();"), vec!["false"]);
    assert_eq!(prints("echo true || undefined_fn();"), vec!["true"]);
    assert_eq!(prints("echo null || 3;"), vec!["3"]);
    assert_eq!(
        runtime_error("true && undefined_fn();"),
        RuntimeError::UndefinedVariable { name: "undefined_fn".to_string(), line: 1 }
    );
}

#[test]
fn arity_is_enforced() {
    assert_eq!(
        runtime_error("func z() { return 1; }\nz(1);"),
        RuntimeError::ArityMismatch { expected: 0, actual: 1, line: 2 }
    );
    assert_eq!(
        runtime_error("func two(a, b) { }\ntwo(1);"),
        RuntimeError::ArityMismatch { expected: 2, actual: 1, line: 2 }
    );
}

#[test]
fn only_null_and_false_are_falsy() {
    assert_eq!(prints("if (0) { echo \"yes\"; }"), vec!["yes"]);
    assert_eq!(prints("if \"\" { echo \"yes\"; }"), vec!["yes"]);
    assert!(prints("if null { echo \"yes\"; }").is_empty());
    assert_eq!(prints("if false { echo 1; } else { echo 2; }"), vec!["2"]);
    assert!(!is_truthy(&Value::Null));
    assert!(!is_truthy(&Value::Bool(false)));
    assert!(is_truthy(&Value::Number(Number::from_int(0))));
    assert!(is_truthy(&Value::String(String::new())));
}

#[test]
fn numbers_print_in_decimal() {
    assert_eq!(
        prints("echo 7 / 2; echo 1 / 3; echo -2.5; echo 10 % 3; echo 0.1 + 0.2; echo 2 * 0.5;"),
        vec!["3.5", "0.333333333", "-2.5", "1", "0.3", "1"]
    );
}

#[test]
fn other_values_print_by_kind() {
    assert_eq!(
        prints("func f() { } echo f; echo clock; echo null; echo true; echo f();"),
        vec!["<function f>", "<native function clock>", "null", "true", "null"]
    );
}

#[test]
fn loops_with_break_and_continue() {
    assert_eq!(
        prints("i = 0; while i < 5 { i += 1; if i == 2 { continue; } if i == 4 { break; } echo i; }"),
        vec!["1", "3"]
    );
}

#[test]
fn return_leaves_the_function_early() {
    assert_eq!(
        prints("func f(n) { while true { if n > 3 { return n; } n = n + 1; } } echo f(0);"),
        vec!["4"]
    );
    assert_eq!(
        prints("func fib(n) { if n < 2 { return n; } return fib(n - 1) + fib(n - 2); } echo fib(15);"),
        vec!["610"]
    );
}

#[test]
fn augmented_assignment_and_increments() {
    assert_eq!(prints("s = 'a'; s += 'b'; echo s;"), vec!["ab"]);
    assert_eq!(prints("x = 5; x -= 2; x *= 3; x /= 2; echo x; x %= 4; echo x;"), vec!["4.5", "0.5"]);
    assert_eq!(prints("x = 1; echo x++; echo x; echo --x;"), vec!["2", "2", "1"]);
    assert_eq!(
        runtime_error("s = 'a'; s -= 1;"),
        RuntimeError::InvalidOperands { operator: "-=".to_string(), line: 1 }
    );
}

#[test]
fn unary_operators() {
    assert_eq!(prints("echo -3; echo !0; echo !null; echo +4;"), vec!["-3", "false", "true", "4"]);
    assert_eq!(
        runtime_error("echo -'a';"),
        RuntimeError::InvalidOperands { operator: "-".to_string(), line: 1 }
    );
}

#[test]
fn comparisons_need_two_numbers() {
    assert_eq!(prints("echo 1 < 2; echo 2 <= 1; echo 3 == 3; echo 3 != 3;"), vec!["true", "false", "true", "false"]);
    assert_eq!(
        runtime_error("echo 'a' == 'a';"),
        RuntimeError::InvalidOperands { operator: "==".to_string(), line: 1 }
    );
}

#[test]
fn division_by_zero_is_an_error() {
    assert_eq!(
        runtime_error("echo 1 / 0;"),
        RuntimeError::InvalidOperands { operator: "/".to_string(), line: 1 }
    );
}

#[test]
fn delete_removes_bindings() {
    assert_eq!(
        runtime_error("x = 1; del x; echo x;"),
        RuntimeError::UndefinedVariable { name: "x".to_string(), line: 1 }
    );
    assert_eq!(
        runtime_error("del nothing;"),
        RuntimeError::UndefinedVariable { name: "nothing".to_string(), line: 1 }
    );
    assert_eq!(prints("x = 1; func f() { del x; } f(); y = 2; echo y;"), vec!["2"]);
    assert_eq!(
        runtime_error("x = 1; func f() { del x; } f(); echo x;"),
        RuntimeError::UndefinedVariable { name: "x".to_string(), line: 1 }
    );
}

#[test]
fn calling_a_non_function_fails() {
    assert_eq!(runtime_error("x = 1;\nx();"), RuntimeError::NotCallable { line: 2 });
    // the callee is checked before any argument is evaluated
    assert_eq!(runtime_error("'f'(undefined_arg);"), RuntimeError::NotCallable { line: 1 });
}

#[test]
fn globals_persist_between_runs_and_survive_errors() {
    let mut it = Interpreter::new();
    assert_eq!(run("x = 1; func f() { return x * 10; }", &mut it, &mut Vec::new()), Ok(()));
    assert!(run("y = x - 'a';", &mut it, &mut Vec::new()).is_err());
    assert_eq!(run("echo f();", &mut it, &mut Vec::new()), Ok(()));
    assert_eq!(it.take_output(), vec!["10"]);
}

#[test]
fn lexical_and_parse_errors_come_back_tagged() {
    let mut it = Interpreter::new();
    assert!(matches!(run("echo 'open", &mut it, &mut Vec::new()), Err(ChonkError::Lex(_))));
    assert!(matches!(run("echo 1", &mut it, &mut Vec::new()), Err(ChonkError::Parse(_))));
}

#[test]
fn clock_gives_seconds() {
    assert_eq!(prints("echo clock() > 1000000;"), vec!["true"]);
    assert_eq!(
        runtime_error("clock(1);"),
        RuntimeError::ArityMismatch { expected: 0, actual: 1, line: 1 }
    );
}

#[test]
fn environment_chain_lookups() {
    let mut env = Environment::new();
    let inner = env.new_outer(0);
    let x = Token { ty: TokenType::Ident, lexeme: "x".to_string(), literal: None, line: 3 };
    env.set(0, &"x".to_string(), Value::Number(Number::from_int(1)));
    assert!(matches!(env.get(inner, &x), Ok(Value::Number(n)) if n == Number::from_int(1)));
    env.set(inner, &"x".to_string(), Value::Bool(true));
    assert!(matches!(env.get(inner, &x), Ok(Value::Bool(true))));
    assert!(matches!(env.get(0, &x), Ok(Value::Number(_))));
    assert_eq!(env.remove(inner, &x), Ok(()));
    assert!(matches!(env.get(inner, &x), Ok(Value::Number(_))));
    assert_eq!(env.remove(inner, &x), Ok(()));
    assert_eq!(
        env.get(inner, &x).unwrap_err(),
        RuntimeError::UndefinedVariable { name: "x".to_string(), line: 3 }
    );
}

#[test]
fn long_argument_lists_are_reported_but_still_run() {
    let params: Vec<String> = (0..256).map(|i| format!("p{i}")).collect();
    let args: Vec<String> = (0..256).map(|i| i.to_string()).collect();
    let src = format!(
        "func many({}) {{ return p255; }}\necho many({});",
        params.join(", "),
        args.join(", ")
    );
    let mut it = Interpreter::new();
    let mut warnings = Vec::new();
    assert_eq!(run(&src, &mut it, &mut warnings), Ok(()));
    assert_eq!(it.take_output(), vec!["255"]);
    assert_eq!(warnings.len(), 2);
    assert_eq!(warnings[0].lexeme, "many");
    assert_eq!(warnings[1].ty, TokenType::RParen);
    assert_eq!(warnings[1].line, 2);
}

#[test]
fn lists_at_the_cap_are_not_reported() {
    let params: Vec<String> = (0..255).map(|i| format!("p{i}")).collect();
    let src = format!("func many({}) {{ }}", params.join(", "));
    let mut it = Interpreter::new();
    let mut warnings = Vec::new();
    assert_eq!(run(&src, &mut it, &mut warnings), Ok(()));
    assert!(warnings.is_empty());
}

#[test]
fn call_frames_are_released_unless_captured() {
    let mut it = Interpreter::new();
    let src = "func add(a, b) { return a + b; } i = 0; while i < 100 { i = add(i, 1); } echo i;";
    assert_eq!(run(src, &mut it, &mut Vec::new()), Ok(()));
    assert_eq!(it.take_output(), vec!["100"]);
    assert_eq!(it.env.frames.len(), 1);

    let keep = "func make(n) { func get() { return n; } return get; } g = make(7); echo g();";
    assert_eq!(run(keep, &mut it, &mut Vec::new()), Ok(()));
    assert_eq!(it.take_output(), vec!["7"]);
    assert!(it.env.frames.len() > 1);
}

#[test]
fn recursion_and_late_globals() {
    assert_eq!(
        prints("func fact(n) { if (n <= 1) { return 1; } return n * fact(n - 1); } echo fact(5);"),
        vec!["120"]
    );
    assert_eq!(prints("func f() { return y; } y = 3; echo f();"), vec!["3"]);
}

#[test]
fn scoping_is_lexical_not_dynamic() {
    assert_eq!(
        runtime_error("func g() { return y; } func h(y) { return g(); } h(5);"),
        RuntimeError::UndefinedVariable { name: "y".to_string(), line: 1 }
    );
}

#[test]
fn a_runtime_error_skips_the_rest_and_keeps_earlier_bindings() {
    let mut it = Interpreter::new();
    let r = run("a = 1; b = a - 's'; c = 2; echo 3;", &mut it, &mut Vec::new());
    assert_eq!(
        r,
        Err(ChonkError::Runtime(RuntimeError::InvalidOperands { operator: "-".to_string(), line: 1 }))
    );
    assert!(it.take_output().is_empty());
    assert_eq!(run("echo a;", &mut it, &mut Vec::new()), Ok(()));
    assert_eq!(it.take_output(), vec!["1"]);
    assert!(run("echo c;", &mut it, &mut Vec::new()).is_err());
    assert!(run("echo b;", &mut it, &mut Vec::new()).is_err());
}

#[test]
fn after_a_failed_call_the_globals_are_current_again() {
    let mut it = Interpreter::new();
    assert_eq!(run("func f(q) { return q - 's'; }", &mut it, &mut Vec::new()), Ok(()));
    assert!(run("f(1);", &mut it, &mut Vec::new()).is_err());
    assert_eq!(
        run("echo q;", &mut it, &mut Vec::new()),
        Err(ChonkError::Runtime(RuntimeError::UndefinedVariable { name: "q".to_string(), line: 1 }))
    );
    assert!(it.take_output().is_empty());
}

#[test]
fn arity_mismatch_does_not_run_the_body() {
    let (r, out) = outcome("func f() { echo 'body'; }\nf(1);");
    assert_eq!(
        r,
        Err(ChonkError::Runtime(RuntimeError::ArityMismatch { expected: 0, actual: 1, line: 2 }))
    );
    assert!(out.is_empty());
}

#[test]
fn return_inside_a_loop_inside_a_call() {
    assert_eq!(
        prints("func first(n) { i = 0; while true { if i == n { return i * 10; } i += 1; } } echo first(3);"),
        vec!["30"]
    );
}

#[test]
fn delete_stops_at_the_first_missing_name() {
    let mut it = Interpreter::new();
    assert_eq!(run("a = 1; b = 2;", &mut it, &mut Vec::new()), Ok(()));
    assert_eq!(
        run("del a, zz, b;", &mut it, &mut Vec::new()),
        Err(ChonkError::Runtime(RuntimeError::UndefinedVariable { name: "zz".to_string(), line: 1 }))
    );
    assert!(run("echo a;", &mut it, &mut Vec::new()).is_err());
    assert_eq!(run("echo b;", &mut it, &mut Vec::new()), Ok(()));
    assert_eq!(it.take_output(), vec!["2"]);
}
