use vstd::prelude::*;

use crate::command::CommandModel;
use crate::parser::{
    with_arm, flushed, initial_state, parse_commands, parse_step, run_commands, run_from, ArmModel,
    ParseState, StageModel, Status, TransitionModel,
};

verus! {

/// The commands that write out match arms: a `MATCH`/`NEXT` pair per arm.
pub open spec fn arm_commands(arms: Seq<ArmModel>) -> Seq<CommandModel>
    decreases arms.len(),
{
    if arms.len() == 0 {
        Seq::empty()
    } else {
        arm_commands(arms.drop_last()) + seq![
            CommandModel::Match(arms.last().pattern),
            CommandModel::Next(arms.last().next_stage),
        ]
    }
}

/// The commands that write out one stage.
pub open spec fn stage_commands(s: StageModel) -> Seq<CommandModel> {
    seq![CommandModel::Stage(s.stage), CommandModel::Speak(s.speak)] + match s.transition {
        TransitionModel::Match(arms) => arm_commands(arms),
        TransitionModel::Input(b) => seq![CommandModel::Input(b.input_var), CommandModel::Next(b.next_stage)],
    }
}

/// The commands that write out a list of stages, in order.
pub open spec fn deparse(stages: Seq<StageModel>) -> Seq<CommandModel>
    decreases stages.len(),
{
    if stages.len() == 0 {
        Seq::empty()
    } else {
        deparse(stages.drop_last()) + stage_commands(stages.last())
    }
}

/// The stage map a list of stages denotes, keyed by stage name; a later
/// stage of a name wins.
pub open spec fn stages_map(stages: Seq<StageModel>) -> Map<Seq<char>, StageModel>
    decreases stages.len(),
{
    if stages.len() == 0 {
        Map::empty()
    } else {
        stages_map(stages.drop_last()).insert(stages.last().stage, stages.last())
    }
}

/// A stage that can be written out: a match transition has at least one arm.
pub open spec fn writable(s: StageModel) -> bool {
    match s.transition {
        TransitionModel::Match(arms) => arms.len() > 0,
        TransitionModel::Input(_) => true,
    }
}

proof fn lemma_run_append(st: ParseState, a: Seq<CommandModel>, b: Seq<CommandModel>)
    ensures
        run_from(st, a + b) == run_from(run_from(st, a), b),
    decreases b.len(),
{
    if b.len() == 0 {
        assert(a + b =~= a);
    } else {
        assert((a + b).drop_last() =~= a + b.drop_last());
        assert((a + b).last() == b.last());
        lemma_run_append(st, a, b.drop_last());
    }
}

proof fn lemma_run_two(st: ParseState, a: CommandModel, b: CommandModel)
    ensures
        run_from(st, seq![a, b]) == parse_step(parse_step(st, a), b),
{
    let one = seq![a];
    let two = seq![a, b];
    assert(two.drop_last() =~= one);
    assert(two.last() == b);
    assert(one.drop_last() =~= Seq::<CommandModel>::empty());
    assert(one.last() == a);
    assert(run_from(st, Seq::<CommandModel>::empty()) == st);
    assert(run_from(st, one) == parse_step(st, a));
}

proof fn lemma_run_arms(st: ParseState, arms: Seq<ArmModel>)
    requires
        st.ok,
        st.status == Status::Speak,
        st.transition is None,
        arms.len() > 0,
    ensures
        run_from(st, arm_commands(arms)).ok,
        run_from(st, arm_commands(arms)).status == Status::MatchNext,
        run_from(st, arm_commands(arms)).transition == Some(TransitionModel::Match(arms)),
        run_from(st, arm_commands(arms)).stage == st.stage,
        run_from(st, arm_commands(arms)).speak == st.speak,
        run_from(st, arm_commands(arms)).stages == st.stages,
    decreases arms.len(),
{
    let front = arms.drop_last();
    let last = arms.last();
    let pair = seq![CommandModel::Match(last.pattern), CommandModel::Next(last.next_stage)];
    lemma_run_append(st, arm_commands(front), pair);
    let mid = run_from(st, arm_commands(front));
    if front.len() > 0 {
        lemma_run_arms(st, front);
    } else {
        assert(arm_commands(front) =~= Seq::<CommandModel>::empty());
    }
    lemma_run_two(mid, CommandModel::Match(last.pattern), CommandModel::Next(last.next_stage));
    if front.len() > 0 {
        assert(front.push(last) =~= arms);
    } else {
        assert(seq![ArmModel { pattern: last.pattern, next_stage: last.next_stage }] =~= arms);
    }
}

proof fn lemma_run_stage(st: ParseState, s: StageModel)
    requires
        st.ok,
        st.status == Status::Init || st.status == Status::MatchNext || st.status == Status::InputNext,
        writable(s),
    ensures
        run_from(st, stage_commands(s)).ok,
        run_from(st, stage_commands(s)).status == Status::MatchNext
            || run_from(st, stage_commands(s)).status == Status::InputNext,
        run_from(st, stage_commands(s)).stage == Some(s.stage),
        run_from(st, stage_commands(s)).speak == Some(s.speak),
        run_from(st, stage_commands(s)).transition == Some(s.transition),
        run_from(st, stage_commands(s)).stages == flushed(st),
{
    let head = seq![CommandModel::Stage(s.stage), CommandModel::Speak(s.speak)];
    let tail = match s.transition {
        TransitionModel::Match(arms) => arm_commands(arms),
        TransitionModel::Input(b) => seq![CommandModel::Input(b.input_var), CommandModel::Next(b.next_stage)],
    };
    assert(stage_commands(s) == head + tail);
    lemma_run_append(st, head, tail);
    lemma_run_two(st, CommandModel::Stage(s.stage), CommandModel::Speak(s.speak));
    let opened = parse_step(st, CommandModel::Stage(s.stage));
    let spoken = parse_step(opened, CommandModel::Speak(s.speak));
    assert(run_from(st, head) == spoken);
    match s.transition {
        TransitionModel::Match(arms) => {
            lemma_run_arms(spoken, arms);
        },
        TransitionModel::Input(b) => {
            lemma_run_two(spoken, CommandModel::Input(b.input_var), CommandModel::Next(b.next_stage));
        },
    }
}

proof fn lemma_run_deparse(stages: Seq<StageModel>)
    requires
        stages.len() > 0,
        forall|i: int| 0 <= i < stages.len() ==> writable(#[trigger] stages[i]),
    ensures
        ({
            let st = run_commands(Map::empty(), deparse(stages));
            &&& st.ok
            &&& st.status == Status::MatchNext || st.status == Status::InputNext
            &&& st.stage == Some(stages.last().stage)
            &&& st.speak == Some(stages.last().speak)
            &&& st.transition == Some(stages.last().transition)
            &&& st.stages == stages_map(stages.drop_last())
        }),
    decreases stages.len(),
{
    let front = stages.drop_last();
    let init = initial_state(Map::empty());
    lemma_run_append(init, deparse(front), stage_commands(stages.last()));
    assert(writable(stages[stages.len() - 1]));
    if front.len() > 0 {
        assert forall|i: int| 0 <= i < front.len() implies writable(#[trigger] front[i]) by {
            assert(front[i] == stages[i]);
        }
        lemma_run_deparse(front);
        let prev = run_commands(Map::empty(), deparse(front));
        lemma_run_stage(prev, stages.last());
        assert(front.last() == (StageModel {
            stage: front.last().stage,
            speak: front.last().speak,
            transition: front.last().transition,
        }));
    } else {
        assert(deparse(front) =~= Seq::<CommandModel>::empty());
        lemma_run_stage(init, stages.last());
        assert(stages_map(front) == Map::<Seq<char>, StageModel>::empty());
    }
}

/// Writing out a list of stages as commands and parsing the commands gives
/// back the stages, keyed by name, as long as every match transition has an
/// arm.
pub proof fn lemma_parse_deparse(stages: Seq<StageModel>)
    requires
        forall|i: int| 0 <= i < stages.len() ==> writable(#[trigger] stages[i]),
    ensures
        parse_commands(Map::empty(), deparse(stages)) == Some(stages_map(stages)),
{
    if stages.len() > 0 {
        lemma_run_deparse(stages);
        let last = stages.last();
        assert(last == (StageModel { stage: last.stage, speak: last.speak, transition: last.transition }));
    } else {
        assert(deparse(stages) =~= Seq::<CommandModel>::empty());
    }
}


/// Some `NEXT` command of `cmds` names `n`.
pub open spec fn named_next(n: Seq<char>, cmds: Seq<CommandModel>) -> bool {
    exists|j: int| 0 <= j < cmds.len() && #[trigger] cmds[j] == CommandModel::Next(n)
}

/// Every stage that `t` leads to is named by a `NEXT` command of `cmds`.
pub open spec fn targets_named(t: TransitionModel, cmds: Seq<CommandModel>) -> bool {
    match t {
        TransitionModel::Match(arms) => forall|i: int|
            0 <= i < arms.len() ==> named_next(#[trigger] arms[i].next_stage, cmds),
        TransitionModel::Input(b) => named_next(b.next_stage, cmds),
    }
}

/// Every stage that `t` leads to is `EXIT` or a stage of `m`.
pub open spec fn targets_in(t: TransitionModel, m: Map<Seq<char>, StageModel>) -> bool {
    match t {
        TransitionModel::Match(arms) => forall|i: int|
            0 <= i < arms.len() ==> (#[trigger] arms[i].next_stage == "EXIT"@ || m.contains_key(arms[i].next_stage)),
        TransitionModel::Input(b) => b.next_stage == "EXIT"@ || m.contains_key(b.next_stage),
    }
}

/// Every transition of `m` leads to `EXIT` or to a stage of `m`.
pub open spec fn closed_map(m: Map<Seq<char>, StageModel>) -> bool {
    forall|k: Seq<char>| #[trigger] m.contains_key(k) ==> targets_in(m[k].transition, m)
}

/// Every `NEXT` command of `cmds` names `EXIT` or a stage of `m`.
pub open spec fn nexts_defined(cmds: Seq<CommandModel>, m: Map<Seq<char>, StageModel>) -> bool {
    forall|j: int| 0 <= j < cmds.len() && (#[trigger] cmds[j]) is Next ==> (cmds[j]->Next_0 == "EXIT"@
        || m.contains_key(cmds[j]->Next_0))
}

spec fn state_targets_named(st: ParseState, cmds: Seq<CommandModel>) -> bool {
    &&& st.transition is Some ==> targets_named(st.transition->0, cmds)
    &&& forall|k: Seq<char>| #[trigger] st.stages.contains_key(k) ==> targets_named(st.stages[k].transition, cmds)
}

proof fn lemma_named_lift(n: Seq<char>, cmds: Seq<CommandModel>)
    requires
        cmds.len() > 0,
        named_next(n, cmds.drop_last()),
    ensures
        named_next(n, cmds),
{
    let pre = cmds.drop_last();
    let j = choose|j: int| 0 <= j < pre.len() && #[trigger] pre[j] == CommandModel::Next(n);
    assert(cmds[j] == pre[j]);
}

proof fn lemma_targets_lift(t: TransitionModel, cmds: Seq<CommandModel>)
    requires
        cmds.len() > 0,
        targets_named(t, cmds.drop_last()),
    ensures
        targets_named(t, cmds),
{
    match t {
        TransitionModel::Match(arms) => {
            assert forall|i: int| 0 <= i < arms.len() implies named_next(#[trigger] arms[i].next_stage, cmds) by {
                lemma_named_lift(arms[i].next_stage, cmds);
            }
        },
        TransitionModel::Input(b) => {
            lemma_named_lift(b.next_stage, cmds);
        },
    }
}

proof fn lemma_state_targets_named(cmds: Seq<CommandModel>)
    ensures
        state_targets_named(run_commands(Map::empty(), cmds), cmds),
    decreases cmds.len(),
{
    if cmds.len() > 0 {
        let pre = cmds.drop_last();
        let c = cmds.last();
        let n = cmds.len() - 1;
        lemma_state_targets_named(pre);
        let st0 = run_commands(Map::empty(), pre);
        if st0.transition is Some {
            lemma_targets_lift(st0.transition->0, cmds);
        }
        assert forall|k: Seq<char>| #[trigger] st0.stages.contains_key(k) implies targets_named(st0.stages[k].transition, cmds) by {
            lemma_targets_lift(st0.stages[k].transition, cmds);
        }
        assert(run_commands(Map::empty(), cmds) == parse_step(st0, c));
        if let CommandModel::Next(name) = c {
            assert(cmds[n] == CommandModel::Next(name));
            assert(named_next(name, cmds));
            if st0.ok && (st0.status == Status::Match || st0.status == Status::Default) && st0.pattern is Some {
                let t1 = with_arm(st0.transition, st0.pattern->0, name);
                match st0.transition {
                    Some(TransitionModel::Match(arms)) => {
                        let arms1 = arms.push(ArmModel { pattern: st0.pattern->0, next_stage: name });
                        assert forall|i: int| 0 <= i < arms1.len() implies named_next(#[trigger] arms1[i].next_stage, cmds) by {
                            if i < arms.len() {
                                assert(arms1[i] == arms[i]);
                            }
                        }
                    },
                    Some(TransitionModel::Input(_)) => {},
                    None => {
                        let arms1 = seq![ArmModel { pattern: st0.pattern->0, next_stage: name }];
                        assert forall|i: int| 0 <= i < arms1.len() implies named_next(#[trigger] arms1[i].next_stage, cmds) by {
                            assert(arms1[i].next_stage == name);
                        }
                    },
                }
            }
        }
    }
}

/// Parsing a stream whose every `NEXT` names `EXIT` or a stage that the
/// stream defines yields a map in which every transition leads to `EXIT` or
/// to one of its stages.
pub proof fn lemma_parse_closed(cmds: Seq<CommandModel>, m: Map<Seq<char>, StageModel>)
    requires
        parse_commands(Map::empty(), cmds) == Some(m),
        nexts_defined(cmds, m),
    ensures
        closed_map(m),
{
    let st = run_commands(Map::empty(), cmds);
    lemma_state_targets_named(cmds);
    assert forall|k: Seq<char>| #[trigger] m.contains_key(k) implies targets_in(m[k].transition, m) by {
        let t = m[k].transition;
        assert(targets_named(t, cmds));
        match t {
            TransitionModel::Match(arms) => {
                assert forall|i: int| 0 <= i < arms.len() implies (#[trigger] arms[i].next_stage == "EXIT"@
                    || m.contains_key(arms[i].next_stage)) by {
                    assert(named_next(arms[i].next_stage, cmds));
                    let j = choose|j: int| 0 <= j < cmds.len() && #[trigger] cmds[j] == CommandModel::Next(arms[i].next_stage);
                }
            },
            TransitionModel::Input(b) => {
                let j = choose|j: int| 0 <= j < cmds.len() && #[trigger] cmds[j] == CommandModel::Next(b.next_stage);
            },
        }
    }
}


/// `cmds` holds no `NEXT` command.
pub open spec fn no_next(cmds: Seq<CommandModel>) -> bool {
    forall|j: int| 0 <= j < cmds.len() ==> !((#[trigger] cmds[j]) is Next)
}

spec fn spoken_without_transition(st: ParseState) -> bool {
    &&& st.stage is Some
    &&& st.speak is Some
    &&& st.transition is None
    &&& st.status == Status::Speak || st.status == Status::Match || st.status == Status::Default
        || st.status == Status::Input
}

proof fn lemma_failed_stays(st: ParseState, cmds: Seq<CommandModel>)
    requires
        !st.ok,
    ensures
        run_from(st, cmds) == st,
    decreases cmds.len(),
{
    if cmds.len() > 0 {
        lemma_failed_stays(st, cmds.drop_last());
    }
}

proof fn lemma_no_next_keeps_open(st: ParseState, rest: Seq<CommandModel>)
    requires
        st.ok,
        spoken_without_transition(st),
        no_next(rest),
    ensures
        !run_from(st, rest).ok || spoken_without_transition(run_from(st, rest)),
    decreases rest.len(),
{
    if rest.len() > 0 {
        let pre = rest.drop_last();
        assert(no_next(pre)) by {
            assert forall|j: int| 0 <= j < pre.len() implies !((#[trigger] pre[j]) is Next) by {
                assert(pre[j] == rest[j]);
            }
        }
        lemma_no_next_keeps_open(st, pre);
        assert(!(rest[rest.len() - 1] is Next));
    }
}

/// A stage that is opened and given its speak line, with no `NEXT` after it,
/// fails the parse: whether the stream ends there or another stage opens,
/// whatever follows.
pub proof fn lemma_unfinished_stage_fails(
    stages: Map<Seq<char>, StageModel>,
    before: Seq<CommandModel>,
    name: Seq<char>,
    speak: Seq<char>,
    rest: Seq<CommandModel>,
    next_name: Seq<char>,
    after: Seq<CommandModel>,
)
    requires
        no_next(rest),
    ensures
        parse_commands(stages, before + seq![CommandModel::Stage(name), CommandModel::Speak(speak)] + rest) is None,
        parse_commands(
            stages,
            before + seq![CommandModel::Stage(name), CommandModel::Speak(speak)] + rest + seq![CommandModel::Stage(next_name)] + after,
        ) is None,
{
    let init = initial_state(stages);
    let head = seq![CommandModel::Stage(name), CommandModel::Speak(speak)];
    let opened = before + head;
    lemma_run_append(init, before, head);
    lemma_run_two(run_from(init, before), CommandModel::Stage(name), CommandModel::Speak(speak));
    let st1 = run_from(init, opened);
    lemma_run_append(init, opened, rest);
    let st2 = run_from(init, opened + rest);
    if st1.ok {
        lemma_no_next_keeps_open(st1, rest);
    } else {
        lemma_failed_stays(st1, rest);
    }
    let closing = seq![CommandModel::Stage(next_name)];
    lemma_run_append(init, opened + rest, closing);
    assert(closing.drop_last() =~= Seq::<CommandModel>::empty());
    assert(closing.last() == CommandModel::Stage(next_name));
    assert(run_from(st2, closing.drop_last()) == st2);
    assert(run_from(st2, closing) == parse_step(st2, CommandModel::Stage(next_name)));
    let st3 = run_from(init, opened + rest + closing);
    assert(!st3.ok);
    lemma_run_append(init, opened + rest + closing, after);
    lemma_failed_stays(st3, after);
}

} // verus!
