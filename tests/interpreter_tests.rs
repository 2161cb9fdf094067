use service_robot::env::{GlobalEnvironment, Value};
use service_robot::error::Error;
use service_robot::interpreter::{input_text, Interpreter};
use service_robot::parser::{InputBlock, MatchBlock, StageBlock, Transition};
use service_robot::stage_map::StageMap;

fn number_of(text: &str) -> Option<String> {
    text.parse::<f64>().ok().map(|n| n.to_string())
}

fn arm(pattern: &str, next: &str) -> MatchBlock {
    MatchBlock { pattern: pattern.to_string(), next_stage: next.to_string() }
}

fn match_stage(name: &str, speak: &str, arms: Vec<MatchBlock>) -> StageBlock {
    StageBlock::new(name, speak, Transition::Match(arms))
}

fn input_stage(name: &str, speak: &str, var: &str, next: &str) -> StageBlock {
    StageBlock::new(
        name,
        speak,
        Transition::Input(InputBlock { input_var: var.to_string(), next_stage: next.to_string() }),
    )
}

fn stages_of(blocks: Vec<StageBlock>) -> StageMap {
    let mut stages = StageMap::new();
    for b in blocks {
        stages.insert(b.stage.clone(), b);
    }
    stages
}

/// Drives a run with the given inputs; returns the printed lines and the outcome.
fn run(stages: &StageMap, inputs: &[&str]) -> (Vec<String>, Result<(), Error>, Interpreter) {
    let mut interp = Interpreter::new();
    let mut out = Vec::new();
    let mut it = inputs.iter();
    loop {
        let line = match interp.speak_line(stages) {
            Ok(l) => l,
            Err(e) => return (out, Err(e), interp),
        };
        out.push(line);
        let input = match interp.awaits_input(stages) {
            Ok(true) => it.next().expect("the run asked for more input").to_string(),
            Ok(false) => String::new(),
            Err(e) => return (out, Err(e), interp),
        };
        let number = number_of(&input_text(&input));
        match interp.advance(stages, &input, number) {
            Ok(true) => return (out, Ok(()), interp),
            Ok(false) => {}
            Err(e) => return (out, Err(e), interp),
        }
    }
}

#[test]
fn test_interpret_normal_exit() {
    let stages = stages_of(vec![
        input_stage("initial", "\"Hello, what's your name?\"", "name", "next"),
        match_stage("next", "\"Hello, \" + name", vec![arm("EMPTY", "EXIT")]),
    ]);
    let (out, result, _) = run(&stages, &["world"]);
    assert!(result.is_ok());
    assert_eq!(out, vec!["Hello, what's your name?".to_string(), "Hello, world".to_string()]);
}

#[test]
fn test_input_block() {
    let mut interpreter = Interpreter::new();
    let input = InputBlock { input_var: "name".to_string(), next_stage: "next".to_string() };
    interpreter.interpret_input_block(&input, "world", number_of("world"));
    assert_eq!(interpreter.global_env.get("name").unwrap().stringify(), "world");
}

#[test]
fn test_match_blocks_with_match() {
    let interpreter = Interpreter::new();
    let match_ = vec![arm("\"world\"", "EXIT")];
    let result = interpreter.interpret_match_blocks(&match_, "hello");
    let ans = if let Err(Error::Runtime) = result { true } else { false };
    assert_eq!(ans, true);
}

#[test]
fn test_regex_match_blocks_with_match() {
    let interpreter = Interpreter::new();
    let match_ = vec![arm("\"[a-z]+\"", "EXIT")];
    let result = interpreter.interpret_match_blocks(&match_, "HeLLo");
    let ans = if let Ok(match_block) = result { match_block.pattern == "\"[a-z]+\"" } else { false };
    assert_eq!(ans, true);
}

#[test]
fn test_match_blocks_with_more_than_one_empty_trans() {
    let interpreter = Interpreter::new();
    let match_ = vec![arm("EMPTY", "EXIT"), arm("\"world\"", "EXIT")];
    let result = interpreter.interpret_match_blocks(&match_, "world");
    let ans = if let Err(Error::Runtime) = result { true } else { false };
    assert_eq!(ans, true);
}

#[test]
fn test_match_blocks_with_empty_pattern() {
    let interpreter = Interpreter::new();
    let match_ = vec![arm("EMPTY", "EXIT")];
    let result = interpreter.interpret_match_blocks(&match_, "");
    let ans = if let Ok(match_block) = result { match_block.pattern == "EMPTY" } else { false };
    assert_eq!(ans, true);
}

#[test]
fn test_get_values() {
    let mut env = GlobalEnvironment::new();
    env.define("a".to_string(), Value::Number("1".to_string()));
    env.define("b".to_string(), Value::String("hello".to_string()));
    assert_eq!(env.get("a"), Some(Value::Number("1".to_string())));
    assert_eq!(env.get("b"), Some(Value::String("hello".to_string())));
}

#[test]
fn test_get_values_not_exist() {
    let env = GlobalEnvironment::new();
    assert_eq!(env.get("a"), None);
}

#[test]
fn test_get_values_override() {
    let mut env = GlobalEnvironment::new();
    env.define("a".to_string(), Value::Number("1".to_string()));
    env.define("a".to_string(), Value::String("hello".to_string()));
    assert_eq!(env.get("a"), Some(Value::String("hello".to_string())));
}

#[test]
fn test_initial_stage() {
    let env = GlobalEnvironment::new();
    assert_eq!(env.stage, "initial");
}

fn yes_no() -> StageMap {
    stages_of(vec![
        match_stage("initial", "\"Continue?\"", vec![arm("yes", "A"), arm("no", "B")]),
        match_stage("A", "\"a\"", vec![arm("EMPTY", "EXIT")]),
        match_stage("B", "\"b\"", vec![arm("EMPTY", "EXIT")]),
    ])
}

#[test]
fn match_routes_first_matching_arm_in_any_case() {
    let stages = yes_no();
    let (out, result, _) = run(&stages, &["YES"]);
    assert!(result.is_ok());
    assert_eq!(out, vec!["Continue?".to_string(), "a".to_string()]);
    let (out, result, _) = run(&stages, &["  no "]);
    assert!(result.is_ok());
    assert_eq!(out, vec!["Continue?".to_string(), "b".to_string()]);
}

#[test]
fn match_without_matching_arm_is_a_runtime_error() {
    let stages = yes_no();
    let (out, result, interp) = run(&stages, &["maybe"]);
    assert!(matches!(result, Err(Error::Runtime)));
    assert_eq!(out, vec!["Continue?".to_string()]);
    assert_eq!(interp.global_env.stage, "initial");
}

#[test]
fn patterns_are_anchored() {
    let interpreter = Interpreter::new();
    let arms = vec![arm("\"yes\"", "A")];
    assert!(interpreter.interpret_match_blocks(&arms, "yes please").is_err());
    assert!(interpreter.interpret_match_blocks(&arms, "oh yes").is_err());
}

#[test]
fn first_matching_arm_wins() {
    let interpreter = Interpreter::new();
    let arms = vec![arm("\"y.*\"", "first"), arm("\"yes\"", "second")];
    assert_eq!(interpreter.interpret_match_blocks(&arms, "yes").unwrap().next_stage, "first");
}

#[test]
fn invalid_pattern_is_a_runtime_error() {
    let interpreter = Interpreter::new();
    let arms = vec![arm("\"(\"", "A")];
    assert!(matches!(interpreter.interpret_match_blocks(&arms, "("), Err(Error::Runtime)));
}

#[test]
fn empty_beside_other_arms_fails_at_run_time() {
    let stages = stages_of(vec![match_stage("initial", "\"x\"", vec![arm("\"a\"", "EXIT"), arm("EMPTY", "EXIT")])]);
    let (out, result, _) = run(&stages, &[]);
    assert!(matches!(result, Err(Error::Runtime)));
    assert_eq!(out, vec!["x".to_string()]);
}

#[test]
fn undefined_variable_fails_before_printing() {
    let stages = stages_of(vec![match_stage("initial", "\"Hi \" + ghost", vec![arm("EMPTY", "EXIT")])]);
    let (out, result, _) = run(&stages, &[]);
    assert!(matches!(result, Err(Error::Runtime)));
    assert!(out.is_empty());
}

#[test]
fn missing_stage_is_a_runtime_error() {
    let stages = stages_of(vec![match_stage("initial", "\"x\"", vec![arm("EMPTY", "nowhere")])]);
    let (out, result, _) = run(&stages, &[]);
    assert!(matches!(result, Err(Error::Runtime)));
    assert_eq!(out, vec!["x".to_string()]);
}

#[test]
fn cycle_runs_until_input_routes_to_exit() {
    let stages = stages_of(vec![
        match_stage("initial", "\"A\"", vec![arm("\"go\"", "B"), arm("\"stop\"", "EXIT")]),
        match_stage("B", "\"B\"", vec![arm("EMPTY", "initial")]),
    ]);
    let inputs = ["go"; 50];
    let mut all: Vec<&str> = inputs.to_vec();
    all.push("stop");
    let (out, result, _) = run(&stages, &all);
    assert!(result.is_ok());
    assert_eq!(out.len(), 101);
    assert_eq!(out[100], "A");
}

#[test]
fn format_output_forms() {
    let mut interp = Interpreter::new();
    interp.global_env.define("n".to_string(), Value::Number("3.5".to_string()));
    interp.global_env.define("s".to_string(), Value::String("str".to_string()));
    assert_eq!(interp.format_output("\"plain text\"").unwrap(), "plain text");
    assert_eq!(interp.format_output("\"a\" + n + \" b \" + s").unwrap(), "a3.5 b str");
    assert_eq!(interp.format_output("s").unwrap(), "str");
    assert_eq!(interp.format_output("\"\"\"q\"\"").unwrap(), "q");
    assert!(matches!(interp.format_output("\"a\" + missing"), Err(Error::Runtime)));
}

#[test]
fn numeric_input_is_stored_as_number_text() {
    let stages = stages_of(vec![
        input_stage("initial", "\"age?\"", "age", "show"),
        match_stage("show", "\"age \" + age", vec![arm("EMPTY", "EXIT")]),
    ]);
    let (out, result, interp) = run(&stages, &[" 1.50 "]);
    assert!(result.is_ok());
    assert_eq!(out[1], "age 1.5");
    assert_eq!(interp.global_env.get("age"), Some(Value::Number("1.5".to_string())));
}

#[test]
fn input_is_trimmed() {
    assert_eq!(input_text("  hi there \t"), "hi there");
    assert_eq!(input_text("   "), "");
}

#[test]
fn error_kind_names() {
    assert_eq!(Error::Scan.kind_name(), "ScanError");
    assert_eq!(Error::Parse.kind_name(), "ParseError");
    assert_eq!(Error::Runtime.kind_name(), "RuntimeError");
}
