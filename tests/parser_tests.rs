use service_robot::command::{Command, CommandType};
use service_robot::error::Error;
use service_robot::parser::{DSLParser, InputBlock, MatchBlock, StageBlock, Transition};

fn stage(name: &str) -> Command {
    Command::new(CommandType::STAGE(name.to_string()), 0)
}

fn speak(text: &str) -> Command {
    Command::new(CommandType::SPEAK(text.to_string()), 0)
}

fn next(name: &str) -> Command {
    Command::new(CommandType::NEXT(name.to_string()), 0)
}

#[test]
fn test_dsl_parser() {
    let mut parser = DSLParser::new();
    let commands = vec![
        Command::new(CommandType::STAGE("stage1".to_string()), 1),
        Command::new(CommandType::SPEAK("speak1".to_string()), 2),
        Command::new(CommandType::MATCH("pattern1".to_string()), 3),
        Command::new(CommandType::NEXT("stage2".to_string()), 4),
        Command::new(CommandType::MATCH("pattern2".to_string()), 5),
        Command::new(CommandType::NEXT("stage3".to_string()), 6),
        Command::new(CommandType::STAGE("stage2".to_string()), 7),
        Command::new(CommandType::SPEAK("speak2".to_string()), 8),
        Command::new(CommandType::MATCH("pattern3".to_string()), 9),
        Command::new(CommandType::NEXT("stage1".to_string()), 10),
        Command::new(CommandType::DEFAULT, 11),
        Command::new(CommandType::NEXT("stage1".to_string()), 12),
        Command::new(CommandType::STAGE("stage3".to_string()), 13),
        Command::new(CommandType::SPEAK("speak3".to_string()), 14),
        Command::new(CommandType::INPUT("input1".to_string()), 15),
        Command::new(CommandType::NEXT("stage1".to_string()), 16),
    ];
    parser.parse(commands).unwrap();
    let mut expected = DSLParser::new();
    expected.stages.insert(
        "stage1".to_string(),
        StageBlock::new(
            "stage1",
            "speak1",
            Transition::Match(vec![
                MatchBlock {
                    pattern: "pattern1".to_string(),
                    next_stage: "stage2".to_string(),
                },
                MatchBlock {
                    pattern: "pattern2".to_string(),
                    next_stage: "stage3".to_string(),
                },
            ]),
        ),
    );
    expected.stages.insert(
        "stage2".to_string(),
        StageBlock::new(
            "stage2",
            "speak2",
            Transition::Match(vec![
                MatchBlock {
                    pattern: "pattern3".to_string(),
                    next_stage: "stage1".to_string(),
                },
                MatchBlock {
                    pattern: ".*".to_string(),
                    next_stage: "stage1".to_string(),
                },
            ]),
        ),
    );
    expected.stages.insert(
        "stage3".to_string(),
        StageBlock::new(
            "stage3",
            "speak3",
            Transition::Input(InputBlock {
                input_var: "input1".to_string(),
                next_stage: "stage1".to_string(),
            }),
        ),
    );
    assert_eq!(parser.stages, expected.stages);
}

#[test]
fn test_dsl_parser_error() {
    let mut parser = DSLParser::new();
    let commands = vec![
        Command::new(CommandType::STAGE("stage1".to_string()), 1),
        Command::new(CommandType::SPEAK("speak1".to_string()), 2),
        Command::new(CommandType::MATCH("pattern1".to_string()), 3),
        Command::new(CommandType::NEXT("stage2".to_string()), 4),
        Command::new(CommandType::MATCH("pattern2".to_string()), 5),
        Command::new(CommandType::NEXT("stage3".to_string()), 6),
        Command::new(CommandType::STAGE("stage2".to_string()), 7),
        Command::new(CommandType::SPEAK("speak2".to_string()), 8),
        Command::new(CommandType::MATCH("pattern3".to_string()), 9),
        Command::new(CommandType::NEXT("stage1".to_string()), 10),
        Command::new(CommandType::STAGE("stage3".to_string()), 11),
        Command::new(CommandType::SPEAK("speak3".to_string()), 12),
        Command::new(CommandType::INPUT("input1".to_string()), 13),
        Command::new(CommandType::NEXT("stage1".to_string()), 14),
        Command::new(CommandType::SPEAK("speak4".to_string()), 15),
    ];
    let result = parser.parse(commands);
    let ans = if let Err(Error::Parse) = result { true } else { false };
    assert_eq!(ans, true);
}

#[test]
fn speak_without_transition_at_end_is_a_parse_error() {
    let mut parser = DSLParser::new();
    let result = parser.parse(vec![stage("a"), speak("\"hi\"")]);
    assert!(matches!(result, Err(Error::Parse)));
    assert!(parser.stages.get("a").is_none());
}

#[test]
fn speak_without_transition_before_next_stage_is_a_parse_error() {
    let mut parser = DSLParser::new();
    let result = parser.parse(vec![stage("a"), speak("\"hi\""), stage("b")]);
    assert!(matches!(result, Err(Error::Parse)));
}

#[test]
fn commands_out_of_place_are_parse_errors() {
    let cases: Vec<Vec<Command>> = vec![
        vec![speak("x")],
        vec![Command::new(CommandType::MATCH("p".to_string()), 1)],
        vec![stage("a"), Command::new(CommandType::INPUT("v".to_string()), 2)],
        vec![stage("a"), next("b")],
        vec![stage("a"), speak("x"), stage("b")],
        vec![
            stage("a"),
            speak("x"),
            Command::new(CommandType::MATCH("p".to_string()), 3),
            Command::new(CommandType::INPUT("v".to_string()), 4),
        ],
        vec![stage("a"), Command::new(CommandType::DEFAULT, 2)],
    ];
    for commands in cases {
        let mut parser = DSLParser::new();
        assert!(matches!(parser.parse(commands), Err(Error::Parse)));
    }
}

#[test]
fn empty_stream_gives_no_stages() {
    let mut parser = DSLParser::new();
    assert!(parser.parse(vec![]).is_ok());
    assert_eq!(parser.stages, DSLParser::new().stages);
}

#[test]
fn stage_without_speak_at_end_is_dropped() {
    let mut parser = DSLParser::new();
    assert!(parser.parse(vec![stage("a")]).is_ok());
    assert!(parser.stages.get("a").is_none());
}

#[test]
fn empty_among_other_arms_parses() {
    let mut parser = DSLParser::new();
    let commands = vec![
        stage("initial"),
        speak("\"hi\""),
        Command::new(CommandType::MATCH("EMPTY".to_string()), 3),
        next("EXIT"),
        Command::new(CommandType::MATCH("\"x\"".to_string()), 5),
        next("EXIT"),
    ];
    assert!(parser.parse(commands).is_ok());
    let block = parser.stages.get("initial").unwrap();
    match &block.transition {
        Transition::Match(arms) => assert_eq!(arms.len(), 2),
        Transition::Input(_) => panic!("expected a match transition"),
    }
}

#[test]
fn trailing_match_without_next_keeps_earlier_arms() {
    let mut parser = DSLParser::new();
    let commands = vec![
        stage("a"),
        speak("x"),
        Command::new(CommandType::MATCH("p".to_string()), 3),
        next("b"),
        Command::new(CommandType::MATCH("q".to_string()), 5),
    ];
    assert!(parser.parse(commands).is_ok());
    let block = parser.stages.get("a").unwrap();
    assert_eq!(
        block.transition,
        Transition::Match(vec![MatchBlock { pattern: "p".to_string(), next_stage: "b".to_string() }])
    );
}

#[test]
fn stage_maps_compare_by_content() {
    let mut a = DSLParser::new();
    let mut b = DSLParser::new();
    let block = |n: &str| {
        StageBlock::new(
            n,
            "s",
            Transition::Input(InputBlock { input_var: "v".to_string(), next_stage: "EXIT".to_string() }),
        )
    };
    a.stages.insert("x".to_string(), block("x"));
    a.stages.insert("y".to_string(), block("y"));
    b.stages.insert("y".to_string(), block("y"));
    b.stages.insert("x".to_string(), block("x"));
    assert_eq!(a.stages, b.stages);
    b.stages.insert("z".to_string(), block("z"));
    assert_ne!(a.stages, b.stages);
}

/// Writes stages back out as commands, one STAGE/SPEAK header per stage and a
/// MATCH/NEXT or INPUT/NEXT group per transition.
fn write_out(blocks: &[StageBlock]) -> Vec<Command> {
    let mut out = Vec::new();
    for b in blocks {
        out.push(Command::new(CommandType::STAGE(b.stage.clone()), 0));
        out.push(Command::new(CommandType::SPEAK(b.speak.clone()), 0));
        match &b.transition {
            Transition::Match(arms) => {
                for a in arms {
                    out.push(Command::new(CommandType::MATCH(a.pattern.clone()), 0));
                    out.push(Command::new(CommandType::NEXT(a.next_stage.clone()), 0));
                }
            }
            Transition::Input(i) => {
                out.push(Command::new(CommandType::INPUT(i.input_var.clone()), 0));
                out.push(Command::new(CommandType::NEXT(i.next_stage.clone()), 0));
            }
        }
    }
    out
}

fn sample_blocks() -> Vec<StageBlock> {
    vec![
        StageBlock::new(
            "initial",
            "\"Hello, what's your name?\"",
            Transition::Input(InputBlock { input_var: "name".to_string(), next_stage: "menu".to_string() }),
        ),
        StageBlock::new(
            "menu",
            "\"Hi \" + name",
            Transition::Match(vec![
                MatchBlock { pattern: "\"again\"".to_string(), next_stage: "initial".to_string() },
                MatchBlock { pattern: ".*".to_string(), next_stage: "EXIT".to_string() },
            ]),
        ),
    ]
}

#[test]
fn written_out_stages_parse_back_to_the_same_map() {
    let mut expected = DSLParser::new();
    for b in sample_blocks() {
        expected.stages.insert(b.stage.clone(), b);
    }
    let mut parser = DSLParser::new();
    parser.parse(write_out(&sample_blocks())).unwrap();
    assert_eq!(parser.stages, expected.stages);
}

#[test]
fn parsed_next_stages_are_stages_or_exit() {
    let mut parser = DSLParser::new();
    parser.parse(write_out(&sample_blocks())).unwrap();
    for name in ["initial", "menu"] {
        let block = parser.stages.get(name).unwrap();
        let nexts: Vec<String> = match &block.transition {
            Transition::Match(arms) => arms.iter().map(|a| a.next_stage.clone()).collect(),
            Transition::Input(i) => vec![i.next_stage.clone()],
        };
        for n in nexts {
            assert!(n == "EXIT" || parser.stages.get(&n).is_some());
        }
    }
}

#[test]
fn stage_description_lists_speak_and_ways_out() {
    let b = StageBlock::new(
        "menu",
        "\"Hi\"",
        Transition::Match(vec![
            MatchBlock { pattern: "a".to_string(), next_stage: "x".to_string() },
            MatchBlock { pattern: ".*".to_string(), next_stage: "EXIT".to_string() },
        ]),
    );
    assert_eq!(b.describe(), "Stage: menu\n  Speak: \"Hi\"\n  Match: a -> x\n  Match: .* -> EXIT\n");
    let i = StageBlock::new(
        "ask",
        "q",
        Transition::Input(InputBlock { input_var: "v".to_string(), next_stage: "menu".to_string() }),
    );
    assert_eq!(i.describe(), "Stage: ask\n  Speak: q\n  Input: v -> menu\n");
}

#[test]
fn parser_description_has_each_stage_once() {
    let mut parser = DSLParser::new();
    parser.parse(write_out(&sample_blocks())).unwrap();
    let mut again = sample_blocks();
    again.truncate(1);
    parser.parse(write_out(&again)).unwrap();
    let text = parser.describe();
    assert_eq!(text.matches("Stage: initial\n").count(), 1);
    assert_eq!(text.matches("Stage: menu\n").count(), 1);
    assert!(text.contains("  Input: name -> menu\n"));
    assert_eq!(parser.stages.keys().len(), 2);
}

#[test]
fn command_description() {
    assert_eq!(Command::new(CommandType::MATCH("x".to_string()), 1).describe(), "MATCH(x)");
    assert_eq!(Command::new(CommandType::STAGE("s".to_string()), 1).describe(), "STAGE(s)");
    assert_eq!(Command::new(CommandType::DEFAULT, 1).describe(), "DEFAULT");
}
