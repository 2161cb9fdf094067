use vstd::prelude::*;

use crate::env::{value_text, GlobalEnvironment, Value, ValueModel};
use crate::error::Error;
use crate::parser::{arms_view, parse_commands, ArmModel, InputBlock, MatchBlock, StageModel, TransitionModel, Transition};
use crate::parser_laws::{deparse, lemma_parse_deparse, stages_map, writable};
use crate::stage_map::StageMap;
use crate::text::{split_on, split_text, trim_text, trimmed, quoted, views};

verus! {

/// Whether the regular expression `pattern`, compiled case-insensitively,
/// finds a match in `text`; `None` when `pattern` does not compile.
pub uninterp spec fn regex_finds_ci(pattern: Seq<char>, text: Seq<char>) -> Option<bool>;

/// Relies on regex's `RegexBuilder` with `case_insensitive(true)`: `build`
/// fails on a pattern that is not a valid expression, and `Regex::is_match`
/// says whether the text holds a match. The answer depends on the two
/// strings alone.
#[verifier::external_body]
fn regex_finds(pattern: &str, text: &str) -> (r: Option<bool>)
    ensures
        r == regex_finds_ci(pattern@, text@),
{
    match regex::RegexBuilder::new(pattern).case_insensitive(true).build() {
        Ok(re) => Some(re.is_match(text)),
        Err(_) => None,
    }
}

/// The stage name that ends a run.
pub open spec fn exit_stage() -> Seq<char> {
    "EXIT"@
}

/// The pattern keyword that takes a transition without reading input.
pub open spec fn empty_pattern() -> Seq<char> {
    "EMPTY"@
}

/// A pattern with its white space and quotes stripped, anchored at both ends.
pub open spec fn anchored(pattern: Seq<char>) -> Seq<char> {
    seq!['^'] + trimmed(trimmed(pattern, false), true) + seq!['$']
}

/// The text one `+`-separated part of a template stands for.
pub open spec fn part_value(vars: Map<Seq<char>, ValueModel>, part: Seq<char>) -> Option<Seq<char>> {
    let p = trimmed(part, false);
    if quoted(p) {
        Some(trimmed(p, true))
    } else if vars.contains_key(p) {
        Some(value_text(vars[p]))
    } else {
        None
    }
}

/// The parts' texts joined in order, or `None` if some part names an
/// undefined variable.
pub open spec fn eval_parts(vars: Map<Seq<char>, ValueModel>, parts: Seq<Seq<char>>) -> Option<Seq<char>>
    decreases parts.len(),
{
    if parts.len() == 0 {
        Some(Seq::<char>::empty())
    } else {
        match (eval_parts(vars, parts.drop_last()), part_value(vars, parts.last())) {
            (Some(a), Some(b)) => Some(a + b),
            _ => None,
        }
    }
}

/// The line a speak template prints, or `None` when it names an undefined
/// variable.
pub open spec fn format_spec(vars: Map<Seq<char>, ValueModel>, speak: Seq<char>) -> Option<Seq<char>> {
    if quoted(speak) && !speak.contains('+') {
        Some(trimmed(speak, true))
    } else {
        eval_parts(vars, split_on(speak, '+'))
    }
}

pub open spec fn has_empty_arm(arms: Seq<ArmModel>) -> bool {
    exists|i: int| 0 <= i < arms.len() && #[trigger] arms[i].pattern == empty_pattern()
}

/// The first arm from `i` on whose pattern matches `text`; `None` when no
/// arm matches or a pattern does not compile before one does.
pub open spec fn arm_from(arms: Seq<ArmModel>, text: Seq<char>, i: int) -> Option<int>
    decreases arms.len() - i,
{
    if i < 0 || i >= arms.len() {
        None
    } else {
        match regex_finds_ci(anchored(arms[i].pattern), text) {
            Some(true) => Some(i),
            Some(false) => arm_from(arms, text, i + 1),
            None => None,
        }
    }
}

/// The arm a match transition takes on `input`, or `None` for a run-time
/// error: `EMPTY` among other arms, no match, or an invalid pattern.
pub open spec fn chosen_arm(arms: Seq<ArmModel>, input: Seq<char>) -> Option<int> {
    if has_empty_arm(arms) {
        if arms.len() == 1 {
            Some(0)
        } else {
            None
        }
    } else {
        arm_from(arms, trimmed(input, false), 0)
    }
}

/// Whether leaving a stage by `t` reads a line of input.
pub open spec fn reads_input(t: TransitionModel) -> bool {
    match t {
        TransitionModel::Input(_) => true,
        TransitionModel::Match(arms) => !has_empty_arm(arms),
    }
}

/// The value an input line is stored as: the number's text where the trimmed
/// line reads as a number, the trimmed line otherwise.
pub open spec fn input_value(input: Seq<char>, number: Option<Seq<char>>) -> ValueModel {
    match number {
        Some(t) => ValueModel::Number(t),
        None => ValueModel::Text(trimmed(input, false)),
    }
}

/// The stage that follows a transition on `input`, or `None` for a run-time error.
pub open spec fn next_stage_of(t: TransitionModel, input: Seq<char>) -> Option<Seq<char>> {
    match t {
        TransitionModel::Input(b) => Some(b.next_stage),
        TransitionModel::Match(arms) => match chosen_arm(arms, input) {
            Some(i) => Some(arms[i].next_stage),
            None => None,
        },
    }
}

/// The variables after a transition on `input`.
pub open spec fn vars_after(
    t: TransitionModel,
    vars: Map<Seq<char>, ValueModel>,
    input: Seq<char>,
    number: Option<Seq<char>>,
) -> Map<Seq<char>, ValueModel> {
    match t {
        TransitionModel::Input(b) => vars.insert(b.input_var, input_value(input, number)),
        TransitionModel::Match(_) => vars,
    }
}

proof fn lemma_eval_failure_sticks(vars: Map<Seq<char>, ValueModel>, parts: Seq<Seq<char>>, i: int)
    requires
        0 <= i <= parts.len(),
        eval_parts(vars, parts.take(i)) is None,
    ensures
        eval_parts(vars, parts) is None,
    decreases parts.len() - i,
{
    if i == parts.len() {
        assert(parts.take(i) =~= parts);
    } else {
        let t = parts.drop_last();
        assert(t.take(i) =~= parts.take(i));
        lemma_eval_failure_sticks(vars, t, i);
    }
}

fn is_quoted(s: &str) -> (r: bool)
    ensures
        r == quoted(s@),
{
    let n = s.unicode_len();
    n > 0 && s.get_char(0) == '"' && s.get_char(n - 1) == '"'
}

fn has_char(s: &str, c: char) -> (r: bool)
    ensures
        r == s@.contains(c),
{
    let n = s.unicode_len();
    let mut i: usize = 0;
    while i < n
        invariant
            n == s@.len(),
            i <= n,
            forall|j: int| 0 <= j < i ==> s@[j] != c,
        decreases n - i,
    {
        if s.get_char(i) == c {
            return true;
        }
        i = i + 1;
    }
    false
}

/// The trimmed text of an input line, as the run sees it.
pub fn input_text(line: &str) -> (r: String)
    ensures
        r@ == trimmed(line@, false),
{
    trim_text(line, false)
}

/// Walks the stages of a script; the console work is the caller's.
pub struct Interpreter {
    pub global_env: GlobalEnvironment,
}

impl Interpreter {
    /// A run with no variables, at stage `initial`.
    pub fn new() -> (r: Self)
        ensures
            r.global_env.vars() == Map::<Seq<char>, ValueModel>::empty(),
            r.global_env.at_stage() == "initial"@,
    {
        Interpreter { global_env: GlobalEnvironment::new() }
    }

    fn error(&self) -> (r: Error)
        ensures
            r is Runtime,
    {
        Error::Runtime
    }

    /// The line a speak template prints: a quoted template without `+` as it
    /// stands, quotes removed; otherwise its `+`-separated parts, each a
    /// quoted literal or a variable, joined in order.
    pub fn format_output(&self, speak: &str) -> (r: Result<String, Error>)
        ensures
            format_spec(self.global_env.vars(), speak@) is Some ==> r is Ok
                && r->Ok_0@ == format_spec(self.global_env.vars(), speak@)->0,
            format_spec(self.global_env.vars(), speak@) is None ==> r is Err && r->Err_0 is Runtime,
    {
        if is_quoted(speak) && !has_char(speak, '+') {
            return Ok(trim_text(speak, true));
        }
        self.parse_expression(speak)
    }

    fn parse_expression(&self, speak: &str) -> (r: Result<String, Error>)
        ensures
            eval_parts(self.global_env.vars(), split_on(speak@, '+')) is Some ==> r is Ok
                && r->Ok_0@ == eval_parts(self.global_env.vars(), split_on(speak@, '+'))->0,
            eval_parts(self.global_env.vars(), split_on(speak@, '+')) is None ==> r is Err
                && r->Err_0 is Runtime,
    {
        let ghost vars = self.global_env.vars();
        let parts = split_text(speak, '+');
        let ghost pv = views(parts@);
        let mut result = String::new();
        let mut i: usize = 0;
        proof {
            assert(pv.take(0) =~= Seq::<Seq<char>>::empty());
        }
        while i < parts.len()
            invariant
                vars == self.global_env.vars(),
                pv == views(parts@),
                pv == split_on(speak@, '+'),
                i <= parts@.len(),
                eval_parts(vars, pv.take(i as int)) == Some(result@),
            decreases parts@.len() - i,
        {
            proof {
                assert(pv.take(i + 1).drop_last() =~= pv.take(i as int));
                assert(pv.take(i + 1).last() == parts@[i as int]@);
            }
            let part = trim_text(parts[i].as_str(), false);
            if is_quoted(part.as_str()) {
                let literal = trim_text(part.as_str(), true);
                result.append(literal.as_str());
            } else {
                match self.global_env.get(part.as_str()) {
                    Some(value) => {
                        let text = value.stringify();
                        result.append(text.as_str());
                    },
                    None => {
                        proof { lemma_eval_failure_sticks(vars, pv, i + 1); }
                        return Err(self.error());
                    },
                }
            }
            i = i + 1;
        }
        proof {
            assert(pv.take(i as int) =~= pv);
        }
        Ok(result)
    }

    /// Stores the input line, trimmed, in the block's variable: as the
    /// number's text when `number` holds one, as the text otherwise.
    pub fn interpret_input_block(&mut self, input: &InputBlock, line: &str, number: Option<String>)
        ensures
            final(self).global_env.vars() == old(self).global_env.vars().insert(
                input.input_var@,
                input_value(line@, match number { Some(t) => Some(t@), None => None }),
            ),
            final(self).global_env.at_stage() == old(self).global_env.at_stage(),
    {
        let value = match number {
            Some(t) => Value::Number(t),
            None => Value::String(input_text(line)),
        };
        self.global_env.define(input.input_var.clone(), value);
    }

    /// Picks the arm a match transition takes on `input`. A lone `EMPTY` arm is
    /// taken without regard to input, and `EMPTY` beside other arms is an error;
    /// otherwise the first arm whose pattern, stripped of white space and
    /// quotes and anchored at both ends, matches the trimmed input regardless
    /// of case is taken, and no match is an error.
    pub fn interpret_match_blocks<'a>(&self, match_: &'a Vec<MatchBlock>, input: &str) -> (r: Result<&'a MatchBlock, Error>)
        ensures
            chosen_arm(arms_view(match_@), input@) is Some ==> r is Ok
                && 0 <= chosen_arm(arms_view(match_@), input@)->0 < match_@.len()
                && r->Ok_0 == match_@[chosen_arm(arms_view(match_@), input@)->0],
            chosen_arm(arms_view(match_@), input@) is None ==> r is Err && r->Err_0 is Runtime,
    {
        let ghost arms = arms_view(match_@);
        let empty = String::from_str("EMPTY");
        let mut i: usize = 0;
        while i < match_.len()
            invariant
                arms == arms_view(match_@),
                empty@ == empty_pattern(),
                i <= match_@.len(),
                forall|j: int| 0 <= j < i ==> #[trigger] arms[j].pattern != empty_pattern(),
            decreases match_@.len() - i,
        {
            if match_[i].pattern == empty {
                proof { assert(arms[i as int].pattern == empty_pattern()); }
                if match_.len() == 1 {
                    return Ok(&match_[i]);
                } else {
                    return Err(self.error());
                }
            }
            i = i + 1;
        }
        let text = input_text(input);
        let mut i: usize = 0;
        while i < match_.len()
            invariant
                arms == arms_view(match_@),
                !has_empty_arm(arms),
                text@ == trimmed(input@, false),
                i <= match_@.len(),
                arm_from(arms, text@, 0) == arm_from(arms, text@, i as int),
            decreases match_@.len() - i,
        {
            let stripped = trim_text(match_[i].pattern.as_str(), false);
            let core = trim_text(stripped.as_str(), true);
            let pattern = String::from_str("^").concat(core.as_str()).concat("$");
            proof {
                reveal_strlit("^");
                reveal_strlit("$");
                assert(arms[i as int].pattern == match_@[i as int].pattern@);
                assert(pattern@ =~= anchored(arms[i as int].pattern));
            }
            match regex_finds(pattern.as_str(), text.as_str()) {
                Some(true) => {
                    return Ok(&match_[i]);
                },
                Some(false) => {},
                None => {
                    return Err(self.error());
                },
            }
            i = i + 1;
        }
        Err(self.error())
    }

    /// The line the current stage speaks; an error when the stage does not
    /// exist or its template names an undefined variable.
    pub fn speak_line(&self, stages: &StageMap) -> (r: Result<String, Error>)
        ensures
            ({
                let s = self.global_env.at_stage();
                if stages@.contains_key(s) && format_spec(self.global_env.vars(), stages@[s].speak) is Some {
                    r is Ok && r->Ok_0@ == format_spec(self.global_env.vars(), stages@[s].speak)->0
                } else {
                    r is Err && r->Err_0 is Runtime
                }
            }),
    {
        match stages.get(self.global_env.stage_name()) {
            Some(stage) => self.format_output(stage.speak.as_str()),
            None => Err(self.error()),
        }
    }

    /// Whether leaving the current stage reads a line of input; an error when
    /// the stage does not exist.
    pub fn awaits_input(&self, stages: &StageMap) -> (r: Result<bool, Error>)
        ensures
            ({
                let s = self.global_env.at_stage();
                if stages@.contains_key(s) {
                    r is Ok && r->Ok_0 == reads_input(stages@[s].transition)
                } else {
                    r is Err && r->Err_0 is Runtime
                }
            }),
    {
        match stages.get(self.global_env.stage_name()) {
            Some(stage) => match &stage.transition {
                Transition::Input(_) => Ok(true),
                Transition::Match(arms) => {
                    let ghost av = arms_view(arms@);
                    let empty = String::from_str("EMPTY");
                    let mut i: usize = 0;
                    proof {
                        assert(stage@.transition == TransitionModel::Match(av));
                    }
                    while i < arms.len()
                        invariant
                            av == arms_view(arms@),
                            stage@.transition == TransitionModel::Match(av),
                            stages@.contains_key(self.global_env.at_stage()),
                            stages@[self.global_env.at_stage()] == stage@,
                            empty@ == empty_pattern(),
                            i <= arms@.len(),
                            forall|j: int| 0 <= j < i ==> #[trigger] av[j].pattern != empty_pattern(),
                        decreases arms@.len() - i,
                    {
                        if arms[i].pattern == empty {
                            proof {
                                assert(av[i as int].pattern == empty_pattern());
                            }
                            return Ok(false);
                        }
                        i = i + 1;
                    }
                    Ok(true)
                },
            },
            None => Err(self.error()),
        }
    }

    /// Leaves the current stage on `line` (the input read, or anything when
    /// the stage reads none); `number` is the number's text where the trimmed
    /// line reads as a number. Returns whether the run has reached `EXIT`.
    pub fn advance(&mut self, stages: &StageMap, line: &str, number: Option<String>) -> (r: Result<bool, Error>)
        ensures
            ({
                let s = old(self).global_env.at_stage();
                let num = match number { Some(t) => Some(t@), None => None };
                if stages@.contains_key(s) && next_stage_of(stages@[s].transition, line@) is Some {
                    &&& r is Ok
                    &&& final(self).global_env.at_stage() == next_stage_of(stages@[s].transition, line@)->0
                    &&& final(self).global_env.vars() == vars_after(
                        stages@[s].transition,
                        old(self).global_env.vars(),
                        line@,
                        num,
                    )
                    &&& r->Ok_0 == (final(self).global_env.at_stage() == exit_stage())
                } else {
                    &&& r is Err
                    &&& r->Err_0 is Runtime
                    &&& final(self).global_env.at_stage() == old(self).global_env.at_stage()
                    &&& final(self).global_env.vars() == old(self).global_env.vars()
                }
            }),
    {
        let stage = match stages.get(self.global_env.stage_name()) {
            Some(stage) => stage,
            None => {
                return Err(self.error());
            },
        };
        let next = match &stage.transition {
            Transition::Input(input) => {
                self.interpret_input_block(input, line, number);
                input.next_stage.clone()
            },
            Transition::Match(arms) => {
                let arm = self.interpret_match_blocks(arms, line)?;
                proof {
                    let i = chosen_arm(arms_view(arms@), line@)->0;
                    assert(arms_view(arms@)[i] == arms@[i]@);
                }
                arm.next_stage.clone()
            },
        };
        let exit = String::from_str("EXIT");
        let done = next == exit;
        self.global_env.set_stage(next);
        Ok(done)
    }
}


/// A match transition in which `EMPTY` stands beside other arms parses like
/// any other, and fails at run time on every input, without reading one.
pub proof fn lemma_empty_beside_arms_fails_at_run_time(s: StageModel, input: Seq<char>)
    requires
        s.transition is Match,
        s.transition->Match_0.len() > 1,
        has_empty_arm(s.transition->Match_0),
    ensures
        parse_commands(Map::empty(), deparse(seq![s])) == Some(Map::<Seq<char>, StageModel>::empty().insert(s.stage, s)),
        !reads_input(s.transition),
        next_stage_of(s.transition, input) is None,
{
    let one = seq![s];
    assert(writable(one[0]));
    lemma_parse_deparse(one);
    assert(one.drop_last() =~= Seq::<StageModel>::empty());
    assert(stages_map(one.drop_last()) == Map::<Seq<char>, StageModel>::empty());
}

/// Where a walk of the stages stands.
pub enum Walk {
    At(Seq<char>, Map<Seq<char>, ValueModel>),
    Exited,
    Failed,
}

/// One stage visit: speak (failing on an undefined variable), then leave the
/// stage on `input` (a line and, where it reads as a number, the number's
/// text); `EXIT` ends the walk.
pub open spec fn walk_step(
    stages: Map<Seq<char>, StageModel>,
    w: Walk,
    input: (Seq<char>, Option<Seq<char>>),
) -> Walk {
    match w {
        Walk::At(s, vars) => {
            if !stages.contains_key(s) || format_spec(vars, stages[s].speak) is None {
                Walk::Failed
            } else {
                match next_stage_of(stages[s].transition, input.0) {
                    None => Walk::Failed,
                    Some(n) => if n == exit_stage() {
                        Walk::Exited
                    } else {
                        Walk::At(n, vars_after(stages[s].transition, vars, input.0, input.1))
                    },
                }
            }
        },
        _ => w,
    }
}

/// A walk of the stages on a list of inputs, one per stage visited; no
/// bound on its length.
pub open spec fn walk(
    stages: Map<Seq<char>, StageModel>,
    w: Walk,
    inputs: Seq<(Seq<char>, Option<Seq<char>>)>,
) -> Walk
    decreases inputs.len(),
{
    if inputs.len() == 0 {
        w
    } else {
        walk_step(stages, walk(stages, w, inputs.drop_last()), inputs.last())
    }
}

/// After any number of visits (round a cycle as often as the inputs lead
/// it), an input that leaves the current stage for `EXIT` ends the walk with
/// success.
pub proof fn lemma_walk_ends_on_exit_input(
    stages: Map<Seq<char>, StageModel>,
    start: Walk,
    inputs: Seq<(Seq<char>, Option<Seq<char>>)>,
    last: (Seq<char>, Option<Seq<char>>),
)
    requires
        walk(stages, start, inputs) matches Walk::At(s, vars) && stages.contains_key(s)
            && format_spec(vars, stages[s].speak) is Some
            && next_stage_of(stages[s].transition, last.0) == Some(exit_stage()),
    ensures
        walk(stages, start, inputs.push(last)) == Walk::Exited,
{
    assert(inputs.push(last).drop_last() =~= inputs);
}


proof fn lemma_walk_append(
    stages: Map<Seq<char>, StageModel>,
    w: Walk,
    a: Seq<(Seq<char>, Option<Seq<char>>)>,
    b: Seq<(Seq<char>, Option<Seq<char>>)>,
)
    ensures
        walk(stages, w, a + b) == walk(stages, walk(stages, w, a), b),
    decreases b.len(),
{
    if b.len() == 0 {
        assert(a + b =~= a);
    } else {
        assert((a + b).drop_last() =~= a + b.drop_last());
        assert((a + b).last() == b.last());
        lemma_walk_append(stages, w, a, b.drop_last());
    }
}

/// `n` rounds of the inputs `there` and `back`.
pub open spec fn rounds(there: Seq<char>, back: Seq<char>, n: nat) -> Seq<(Seq<char>, Option<Seq<char>>)>
    decreases n,
{
    if n == 0 {
        Seq::empty()
    } else {
        rounds(there, back, (n - 1) as nat) + seq![(there, None), (back, None)]
    }
}

/// In a cycle of two match stages `a` → `b` → `a`, a walk from `a` goes round
/// as many times as the inputs say, and ends with success on the first
/// input that leaves `a` for `EXIT`, however many rounds came before.
pub proof fn lemma_cycle_ends_on_exit_input(
    stages: Map<Seq<char>, StageModel>,
    a: Seq<char>,
    b: Seq<char>,
    vars: Map<Seq<char>, ValueModel>,
    there: Seq<char>,
    back: Seq<char>,
    stop: Seq<char>,
    n: nat,
)
    requires
        stages.contains_key(a),
        stages.contains_key(b),
        a != exit_stage(),
        b != exit_stage(),
        stages[a].transition is Match,
        stages[b].transition is Match,
        format_spec(vars, stages[a].speak) is Some,
        format_spec(vars, stages[b].speak) is Some,
        next_stage_of(stages[a].transition, there) == Some(b),
        next_stage_of(stages[b].transition, back) == Some(a),
        next_stage_of(stages[a].transition, stop) == Some(exit_stage()),
    ensures
        walk(stages, Walk::At(a, vars), rounds(there, back, n)) == Walk::At(a, vars),
        walk(stages, Walk::At(a, vars), rounds(there, back, n).push((stop, None))) == Walk::Exited,
    decreases n,
{
    let start = Walk::At(a, vars);
    if n == 0 {
        assert(rounds(there, back, n) =~= Seq::<(Seq<char>, Option<Seq<char>>)>::empty());
    } else {
        let prev = rounds(there, back, (n - 1) as nat);
        let pair = seq![(there, None::<Seq<char>>), (back, None::<Seq<char>>)];
        lemma_cycle_ends_on_exit_input(stages, a, b, vars, there, back, stop, (n - 1) as nat);
        lemma_walk_append(stages, start, prev, pair);
        assert(pair.drop_last() =~= seq![(there, None::<Seq<char>>)]);
        assert(seq![(there, None::<Seq<char>>)].drop_last() =~= Seq::<(Seq<char>, Option<Seq<char>>)>::empty());
        let one = seq![(there, None::<Seq<char>>)];
        assert(one.last() == (there, None::<Seq<char>>));
        assert(walk(stages, start, one.drop_last()) == start);
        let mid = walk_step(stages, start, (there, None));
        assert(walk(stages, start, one) == mid);
        assert(mid == Walk::At(b, vars));
        assert(pair.last() == (back, None::<Seq<char>>));
        assert(walk(stages, start, pair) == walk_step(stages, mid, (back, None)));
    }
    lemma_walk_ends_on_exit_input(stages, start, rounds(there, back, n), (stop, None));
}

} // verus!
