use vstd::prelude::*;

use crate::command::{Command, CommandModel, CommandType};
use crate::error::Error;
use crate::stage_map::StageMap;
use crate::text::views;

verus! {

/// One arm of a match transition, as the model sees it.
pub struct ArmModel {
    pub pattern: Seq<char>,
    pub next_stage: Seq<char>,
}

/// An input transition, as the model sees it.
pub struct InputModel {
    pub input_var: Seq<char>,
    pub next_stage: Seq<char>,
}

/// How a stage is left, as the model sees it.
pub enum TransitionModel {
    Match(Seq<ArmModel>),
    Input(InputModel),
}

/// A stage, as the model sees it.
pub struct StageModel {
    pub stage: Seq<char>,
    pub speak: Seq<char>,
    pub transition: TransitionModel,
}

/// How a stage is left: by matching the user's input against ordered arms,
/// or by storing the input in a variable.
#[derive(Debug, PartialEq)]
pub enum Transition {
    Match(Vec<MatchBlock>),
    Input(InputBlock),
}

/// A pattern (a regular expression, or the keyword `EMPTY`) and the stage
/// that follows when it matches.
#[derive(Debug, PartialEq)]
pub struct MatchBlock {
    pub pattern: String,
    pub next_stage: String,
}

/// The variable that receives the input and the stage that follows.
#[derive(Debug, PartialEq)]
pub struct InputBlock {
    pub input_var: String,
    pub next_stage: String,
}

/// A named stage: the template it speaks and how it is left.
#[derive(Debug, PartialEq)]
pub struct StageBlock {
    pub stage: String,
    pub speak: String,
    pub transition: Transition,
}

impl View for MatchBlock {
    type V = ArmModel;

    open spec fn view(&self) -> ArmModel {
        ArmModel { pattern: self.pattern@, next_stage: self.next_stage@ }
    }
}

impl View for InputBlock {
    type V = InputModel;

    open spec fn view(&self) -> InputModel {
        InputModel { input_var: self.input_var@, next_stage: self.next_stage@ }
    }
}

pub open spec fn arms_view(arms: Seq<MatchBlock>) -> Seq<ArmModel> {
    arms.map_values(|b: MatchBlock| b@)
}

impl View for Transition {
    type V = TransitionModel;

    open spec fn view(&self) -> TransitionModel {
        match self {
            Transition::Match(arms) => TransitionModel::Match(arms_view(arms@)),
            Transition::Input(b) => TransitionModel::Input(b@),
        }
    }
}

impl View for StageBlock {
    type V = StageModel;

    open spec fn view(&self) -> StageModel {
        StageModel { stage: self.stage@, speak: self.speak@, transition: self.transition@ }
    }
}

fn same_arms(a: &Vec<MatchBlock>, b: &Vec<MatchBlock>) -> (r: bool)
    ensures
        r == (arms_view(a@) == arms_view(b@)),
{
    if a.len() != b.len() {
        return false;
    }
    let mut i: usize = 0;
    while i < a.len()
        invariant
            a@.len() == b@.len(),
            i <= a@.len(),
            forall|j: int| 0 <= j < i ==> #[trigger] a@[j]@ == b@[j]@,
        decreases a@.len() - i,
    {
        if a[i].pattern != b[i].pattern || a[i].next_stage != b[i].next_stage {
            proof {
                assert(arms_view(a@)[i as int] == a@[i as int]@);
                assert(arms_view(b@)[i as int] == b@[i as int]@);
            }
            return false;
        }
        i = i + 1;
    }
    proof {
        assert(arms_view(a@) =~= arms_view(b@));
    }
    true
}

/// Whether two stages have the same name, template and transition.
pub fn same_block(a: &StageBlock, b: &StageBlock) -> (r: bool)
    ensures
        r == (a@ == b@),
{
    if a.stage != b.stage || a.speak != b.speak {
        return false;
    }
    match (&a.transition, &b.transition) {
        (Transition::Match(x), Transition::Match(y)) => same_arms(x, y),
        (Transition::Input(x), Transition::Input(y)) => x.input_var == y.input_var && x.next_stage
            == y.next_stage,
        _ => false,
    }
}

/// One `  Match: pattern -> next` line per arm.
pub open spec fn arm_lines(arms: Seq<ArmModel>) -> Seq<char>
    decreases arms.len(),
{
    if arms.len() == 0 {
        Seq::empty()
    } else {
        arm_lines(arms.drop_last()) + "  Match: "@ + arms.last().pattern + " -> "@ + arms.last().next_stage
            + "\n"@
    }
}

/// The lines that describe a transition.
pub open spec fn transition_lines(t: TransitionModel) -> Seq<char> {
    match t {
        TransitionModel::Match(arms) => arm_lines(arms),
        TransitionModel::Input(b) => "  Input: "@ + b.input_var + " -> "@ + b.next_stage + "\n"@,
    }
}

/// The description of stage `s` under the name `name`.
pub open spec fn stage_text(name: Seq<char>, s: StageModel) -> Seq<char> {
    "Stage: "@ + name + "\n"@ + "  Speak: "@ + s.speak + "\n"@ + transition_lines(s.transition)
}

/// Appends `label`, `left`, `sep`, `right` and a line feed.
fn push_line(out: &mut String, label: &str, left: &str, sep: &str, right: &str)
    ensures
        final(out)@ == old(out)@ + label@ + left@ + sep@ + right@ + "\n"@,
{
    out.append(label);
    out.append(left);
    out.append(sep);
    out.append(right);
    out.append("\n");
}

/// Appends the description of a stage named `name`.
pub fn describe_stage(out: &mut String, name: &str, block: &StageBlock)
    ensures
        final(out)@ == old(out)@ + stage_text(name@, block@),
{
    let ghost start = out@;
    push_line(out, "Stage: ", name, "", "");
    push_line(out, "  Speak: ", block.speak.as_str(), "", "");
    proof {
        reveal_strlit("");
        assert(""@ =~= Seq::<char>::empty());
        assert(out@ =~= start + ("Stage: "@ + name@ + "\n"@ + "  Speak: "@ + block.speak@ + "\n"@));
    }
    let ghost head = out@;
    match &block.transition {
        Transition::Match(arms) => {
            let mut i: usize = 0;
            proof {
                assert(arms_view(arms@).take(0) =~= Seq::<ArmModel>::empty());
                assert(out@ =~= head + arm_lines(arms_view(arms@).take(0)));
            }
            while i < arms.len()
                invariant
                    i <= arms@.len(),
                    out@ == head + arm_lines(arms_view(arms@).take(i as int)),
                decreases arms@.len() - i,
            {
                let ghost before = out@;
                push_line(out, "  Match: ", arms[i].pattern.as_str(), " -> ", arms[i].next_stage.as_str());
                proof {
                    let av = arms_view(arms@);
                    assert(av.take(i + 1).drop_last() =~= av.take(i as int));
                    assert(av.take(i + 1).last() == arms@[i as int]@);
                    assert(out@ =~= head + arm_lines(av.take(i + 1)));
                }
                i = i + 1;
            }
            proof {
                assert(arms_view(arms@).take(i as int) =~= arms_view(arms@));
            }
        },
        Transition::Input(b) => {
            push_line(out, "  Input: ", b.input_var.as_str(), " -> ", b.next_stage.as_str());
        },
    }
    proof {
        assert(out@ =~= start + stage_text(name@, block@));
    }
}

impl StageBlock {
    /// A multi-line description of the stage: its name, its speak template
    /// and one line per way out.
    pub fn describe(&self) -> (r: String)
        ensures
            r@ == stage_text(self.stage@, self@),
    {
        let mut out = String::new();
        describe_stage(&mut out, self.stage.as_str(), self);
        proof {
            assert(out@ =~= stage_text(self.stage@, self@));
        }
        out
    }

    /// Builds a stage from its name, its speak template and its transition.
    pub fn new(stage: &str, speak: &str, transition: Transition) -> (r: Self)
        ensures
            r@ == (StageModel { stage: stage@, speak: speak@, transition: transition@ }),
    {
        StageBlock {
            stage: String::from_str(stage),
            speak: String::from_str(speak),
            transition,
        }
    }
}


/// Where the parser stands in the command-ordering grammar.
#[derive(Debug, Clone, Copy, PartialEq, Eq, Structural)]
pub enum Status {
    Init,
    Stage,
    Speak,
    Match,
    MatchNext,
    Input,
    InputNext,
    Default,
}

/// Everything the parser tracks between two commands.
pub struct ParseState {
    pub ok: bool,
    pub status: Status,
    pub stage: Option<Seq<char>>,
    pub speak: Option<Seq<char>>,
    pub transition: Option<TransitionModel>,
    pub pattern: Option<Seq<char>>,
    pub stages: Map<Seq<char>, StageModel>,
}

pub open spec fn initial_state(stages: Map<Seq<char>, StageModel>) -> ParseState {
    ParseState {
        ok: true,
        status: Status::Init,
        stage: None,
        speak: None,
        transition: None,
        pattern: None,
        stages,
    }
}

/// The stage map with the open stage stored, when it is complete.
pub open spec fn flushed(st: ParseState) -> Map<Seq<char>, StageModel> {
    if st.stage is Some && st.speak is Some && st.transition is Some {
        st.stages.insert(
            st.stage->0,
            StageModel {
                stage: st.stage->0,
                speak: st.speak->0,
                transition: st.transition->0,
            },
        )
    } else {
        st.stages
    }
}

pub open spec fn failed(st: ParseState) -> ParseState {
    ParseState { ok: false, ..st }
}

/// The transition after one more arm `pattern -> next`.
pub open spec fn with_arm(t: Option<TransitionModel>, pattern: Seq<char>, next: Seq<char>) -> Option<TransitionModel> {
    let arm = ArmModel { pattern, next_stage: next };
    match t {
        Some(TransitionModel::Match(arms)) => Some(TransitionModel::Match(arms.push(arm))),
        Some(TransitionModel::Input(b)) => Some(TransitionModel::Input(b)),
        None => Some(TransitionModel::Match(seq![arm])),
    }
}

/// One command of the grammar; a command out of place fails the parse,
/// and a failed parse stays failed.
pub open spec fn parse_step(st: ParseState, c: CommandModel) -> ParseState {
    if !st.ok {
        st
    } else {
        match c {
            CommandModel::Stage(name) => {
                if st.status == Status::Init || st.status == Status::InputNext
                    || st.status == Status::MatchNext {
                    ParseState {
                        status: Status::Stage,
                        stage: Some(name),
                        speak: None,
                        transition: None,
                        stages: flushed(st),
                        ..st
                    }
                } else {
                    failed(st)
                }
            },
            CommandModel::Speak(text) => {
                if st.status == Status::Stage {
                    ParseState { status: Status::Speak, speak: Some(text), ..st }
                } else {
                    failed(st)
                }
            },
            CommandModel::Match(pattern) => {
                if st.status == Status::Speak || st.status == Status::MatchNext {
                    ParseState { status: Status::Match, pattern: Some(pattern), ..st }
                } else {
                    failed(st)
                }
            },
            CommandModel::Default => {
                if st.status == Status::Speak || st.status == Status::MatchNext {
                    ParseState { status: Status::Default, pattern: Some(".*"@), ..st }
                } else {
                    failed(st)
                }
            },
            CommandModel::Input(var) => {
                if st.status == Status::Speak {
                    ParseState { status: Status::Input, pattern: Some(var), ..st }
                } else {
                    failed(st)
                }
            },
            CommandModel::Next(next) => {
                if st.status == Status::Match || st.status == Status::Default {
                    ParseState {
                        status: Status::MatchNext,
                        transition: if st.pattern is Some {
                            with_arm(st.transition, st.pattern->0, next)
                        } else {
                            st.transition
                        },
                        ..st
                    }
                } else if st.status == Status::Input {
                    ParseState {
                        status: Status::InputNext,
                        transition: if st.pattern is Some {
                            Some(
                                TransitionModel::Input(
                                    InputModel { input_var: st.pattern->0, next_stage: next },
                                ),
                            )
                        } else {
                            st.transition
                        },
                        ..st
                    }
                } else {
                    failed(st)
                }
            },
        }
    }
}

/// The parser's state after `cmds`, from state `st`.
pub open spec fn run_from(st: ParseState, cmds: Seq<CommandModel>) -> ParseState
    decreases cmds.len(),
{
    if cmds.len() == 0 {
        st
    } else {
        parse_step(run_from(st, cmds.drop_last()), cmds.last())
    }
}

/// The parser's state after `cmds`, on top of `stages`.
pub open spec fn run_commands(stages: Map<Seq<char>, StageModel>, cmds: Seq<CommandModel>) -> ParseState {
    run_from(initial_state(stages), cmds)
}

/// The kinds and arguments of a list of commands.
pub open spec fn command_models(cmds: Seq<Command>) -> Seq<CommandModel> {
    cmds.map_values(|c: Command| c.ctype@)
}

/// Whether the end of the stream is acceptable: a stage that has spoken must
/// have a complete transition.
pub open spec fn end_ok(st: ParseState) -> bool {
    st.ok && !(st.stage is Some && st.speak is Some && st.transition is None)
}

/// The stage map that parsing `cmds` on top of `stages` yields, or `None`
/// when the commands break the grammar.
pub open spec fn parse_commands(stages: Map<Seq<char>, StageModel>, cmds: Seq<CommandModel>) -> Option<Map<Seq<char>, StageModel>> {
    let st = run_commands(stages, cmds);
    if end_ok(st) {
        Some(flushed(st))
    } else {
        None
    }
}

proof fn lemma_failure_sticks(stages: Map<Seq<char>, StageModel>, cmds: Seq<CommandModel>, i: int)
    requires
        0 <= i <= cmds.len(),
        !run_commands(stages, cmds.take(i)).ok,
    ensures
        run_commands(stages, cmds) == run_commands(stages, cmds.take(i)),
    decreases cmds.len() - i,
{
    if i == cmds.len() {
        assert(cmds.take(i) =~= cmds);
    } else {
        let t = cmds.drop_last();
        assert(t.take(i) =~= cmds.take(i));
        lemma_failure_sticks(stages, t, i);
    }
}

pub open spec fn opt_view(o: Option<String>) -> Option<Seq<char>> {
    match o {
        Some(s) => Some(s@),
        None => None,
    }
}

pub open spec fn opt_transition_view(o: Option<Transition>) -> Option<TransitionModel> {
    match o {
        Some(t) => Some(t@),
        None => None,
    }
}

/// The descriptions of the stages of `m` named by `names`, in that order.
pub open spec fn map_text(names: Seq<Seq<char>>, m: Map<Seq<char>, StageModel>) -> Seq<char>
    decreases names.len(),
{
    if names.len() == 0 {
        Seq::empty()
    } else {
        map_text(names.drop_last(), m) + stage_text(names.last(), m[names.last()])
    }
}

/// Builds the stage map of a script from its commands.
pub struct DSLParser {
    pub stages: StageMap,
}

impl DSLParser {
    /// A parser with no stages.
    pub fn new() -> (r: Self)
        ensures
            r.stages@ == Map::<Seq<char>, StageModel>::empty(),
    {
        DSLParser { stages: StageMap::new() }
    }

    /// A description of every stage, each once, in some order of names.
    pub fn describe(&self) -> (r: String)
        ensures
            exists|names: Seq<Seq<char>>|
                names.no_duplicates()
                && (forall|k: Seq<char>| #[trigger] self.stages@.contains_key(k) <==> names.contains(k))
                && r@ == map_text(names, self.stages@),
    {
        let keys = self.stages.keys();
        let ghost names = views(keys@);
        let mut out = String::new();
        let mut i: usize = 0;
        proof {
            assert(names.take(0) =~= Seq::<Seq<char>>::empty());
        }
        while i < keys.len()
            invariant
                names == views(keys@),
                forall|k: Seq<char>| #[trigger] self.stages@.contains_key(k) <==> names.contains(k),
                i <= keys@.len(),
                out@ == map_text(names.take(i as int), self.stages@),
            decreases keys@.len() - i,
        {
            proof {
                assert(names[i as int] == keys@[i as int]@);
                assert(names.contains(keys@[i as int]@));
            }
            let block = self.stages.get(keys[i].as_str()).unwrap();
            describe_stage(&mut out, keys[i].as_str(), block);
            proof {
                assert(names.take(i + 1).drop_last() =~= names.take(i as int));
                assert(names.take(i + 1).last() == keys@[i as int]@);
            }
            i = i + 1;
        }
        proof {
            assert(names.take(i as int) =~= names);
        }
        out
    }

    fn error(&self) -> (r: Error)
        ensures
            r is Parse,
    {
        Error::Parse
    }

    /// Checks the commands against the grammar and adds the stages they
    /// describe. On failure the stages completed before the faulty command
    /// stay in the map.
    pub fn parse(&mut self, commands: Vec<Command>) -> (r: Result<(), Error>)
        ensures
            r is Ok <==> parse_commands(old(self).stages@, command_models(commands@)) is Some,
            r is Ok ==> final(self).stages@ == parse_commands(old(self).stages@, command_models(commands@))->0,
            r is Err ==> r->Err_0 is Parse,
            r is Err ==> final(self).stages@ == run_commands(old(self).stages@, command_models(commands@)).stages,
    {
        let ghost start = self.stages@;
        let ghost models = command_models(commands@);
        let mut current_stage: Option<String> = None;
        let mut current_speak: Option<String> = None;
        let mut current_transition: Option<Transition> = None;
        let mut current_pattern: Option<String> = None;
        let mut status = Status::Init;
        let mut i: usize = 0;
        while i < commands.len()
            invariant
                start == old(self).stages@,
                models == command_models(commands@),
                i <= commands@.len(),
                run_commands(start, models.take(i as int)) == (ParseState {
                    ok: true,
                    status,
                    stage: opt_view(current_stage),
                    speak: opt_view(current_speak),
                    transition: opt_transition_view(current_transition),
                    pattern: opt_view(current_pattern),
                    stages: self.stages@,
                }),
                status == Status::Init ==> current_stage is None,
                status == Status::Stage ==> current_speak is None,
                status == Status::MatchNext || status == Status::InputNext ==> current_transition is Some,
                status == Status::Match || status == Status::Default || status == Status::Input ==> current_pattern is Some,
                status != Status::Init ==> current_stage is Some,
                status != Status::Init && status != Status::Stage ==> current_speak is Some,
            decreases commands@.len() - i,
        {
            let ghost before = run_commands(start, models.take(i as int));
            proof {
                assert(models.take(i + 1).drop_last() =~= models.take(i as int));
                assert(models.take(i + 1).last() == commands@[i as int].ctype@);
                assert(run_commands(start, models.take(i + 1)) == parse_step(before, commands@[i as int].ctype@));
            }
            let command = &commands[i];
            match &command.ctype {
                CommandType::STAGE(stage) => {
                    if status == Status::Init || status == Status::InputNext || status == Status::MatchNext {
                        status = Status::Stage;
                    } else {
                        proof {
                            assert(run_commands(start, models.take(i + 1)) == failed(before));
                            lemma_failure_sticks(start, models, i + 1);
                        }
                        return Err(self.error());
                    }
                    if let Some(name) = current_stage {
                        if let Some(speak) = current_speak {
                            let transition = current_transition.unwrap();
                            let block = StageBlock::new(name.as_str(), speak.as_str(), transition);
                            self.stages.insert(name, block);
                        }
                    }
                    current_stage = Some(stage.clone());
                    current_speak = None;
                    current_transition = None;
                },
                CommandType::SPEAK(speak) => {
                    if status == Status::Stage {
                        status = Status::Speak;
                    } else {
                        proof {
                            assert(run_commands(start, models.take(i + 1)) == failed(before));
                            lemma_failure_sticks(start, models, i + 1);
                        }
                        return Err(self.error());
                    }
                    current_speak = Some(speak.clone());
                },
                CommandType::MATCH(pattern) => {
                    if status == Status::Speak || status == Status::MatchNext {
                        status = Status::Match;
                    } else {
                        proof {
                            assert(run_commands(start, models.take(i + 1)) == failed(before));
                            lemma_failure_sticks(start, models, i + 1);
                        }
                        return Err(self.error());
                    }
                    current_pattern = Some(pattern.clone());
                },
                CommandType::DEFAULT => {
                    if status == Status::Speak || status == Status::MatchNext {
                        status = Status::Default;
                    } else {
                        proof {
                            assert(run_commands(start, models.take(i + 1)) == failed(before));
                            lemma_failure_sticks(start, models, i + 1);
                        }
                        return Err(self.error());
                    }
                    current_pattern = Some(String::from_str(".*"));
                },
                CommandType::INPUT(input_var) => {
                    if status == Status::Speak {
                        status = Status::Input;
                    } else {
                        proof {
                            assert(run_commands(start, models.take(i + 1)) == failed(before));
                            lemma_failure_sticks(start, models, i + 1);
                        }
                        return Err(self.error());
                    }
                    current_pattern = Some(input_var.clone());
                },
                CommandType::NEXT(next_stage) => {
                    if status == Status::Match || status == Status::Default {
                        status = Status::MatchNext;
                        if let Some(pattern) = &current_pattern {
                            let arm = MatchBlock { pattern: pattern.clone(), next_stage: next_stage.clone() };
                            current_transition = match current_transition {
                                Some(Transition::Match(mut arms)) => {
                                    let ghost old_arms = arms@;
                                    arms.push(arm);
                                    proof {
                                        assert(arms_view(arms@) =~= arms_view(old_arms).push(arm@));
                                    }
                                    Some(Transition::Match(arms))
                                },
                                Some(other) => Some(other),
                                None => {
                                    let arms = vec![arm];
                                    proof {
                                        assert(arms_view(arms@) =~= seq![arm@]);
                                    }
                                    Some(Transition::Match(arms))
                                },
                            };
                        }
                    } else if status == Status::Input {
                        status = Status::InputNext;
                        if let Some(pattern) = &current_pattern {
                            current_transition = Some(
                                Transition::Input(
                                    InputBlock { input_var: pattern.clone(), next_stage: next_stage.clone() },
                                ),
                            );
                        }
                    } else {
                        proof {
                            assert(run_commands(start, models.take(i + 1)) == failed(before));
                            lemma_failure_sticks(start, models, i + 1);
                        }
                        return Err(self.error());
                    }
                },
            }
            i = i + 1;
        }
        proof {
            assert(models.take(i as int) =~= models);
        }
        if let Some(name) = current_stage {
            if let Some(speak) = current_speak {
                match current_transition {
                    Some(transition) => {
                        let block = StageBlock::new(name.as_str(), speak.as_str(), transition);
                        self.stages.insert(name, block);
                    },
                    None => {
                        return Err(self.error());
                    },
                }
            }
        }
        Ok(())
    }
}

} // verus!
