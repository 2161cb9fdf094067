use vstd::prelude::*;

verus! {

/// The kind of a scanned command together with its argument.
#[derive(Debug, Clone, PartialEq)]
pub enum CommandType {
    MATCH(String),
    INPUT(String),
    SPEAK(String),
    NEXT(String),
    STAGE(String),
    DEFAULT,
}

/// A command kind with its argument, as the model sees it.
pub enum CommandModel {
    Match(Seq<char>),
    Input(Seq<char>),
    Speak(Seq<char>),
    Next(Seq<char>),
    Stage(Seq<char>),
    Default,
}

impl View for CommandType {
    type V = CommandModel;

    open spec fn view(&self) -> CommandModel {
        match self {
            CommandType::MATCH(s) => CommandModel::Match(s@),
            CommandType::INPUT(s) => CommandModel::Input(s@),
            CommandType::SPEAK(s) => CommandModel::Speak(s@),
            CommandType::NEXT(s) => CommandModel::Next(s@),
            CommandType::STAGE(s) => CommandModel::Stage(s@),
            CommandType::DEFAULT => CommandModel::Default,
        }
    }
}

/// A command and the 1-based source line it was scanned from.
#[derive(Debug, Clone, PartialEq)]
pub struct Command {
    pub ctype: CommandType,
    pub line: i32,
}

/// How a command is written in diagnostics: `KIND(argument)`, or `DEFAULT`.
pub open spec fn command_text(c: CommandModel) -> Seq<char> {
    match c {
        CommandModel::Match(a) => "MATCH("@ + a + ")"@,
        CommandModel::Input(a) => "INPUT("@ + a + ")"@,
        CommandModel::Speak(a) => "SPEAK("@ + a + ")"@,
        CommandModel::Next(a) => "NEXT("@ + a + ")"@,
        CommandModel::Stage(a) => "STAGE("@ + a + ")"@,
        CommandModel::Default => "DEFAULT"@,
    }
}

fn wrapped(kind: &str, arg: &String) -> (r: String)
    ensures
        r@ == kind@ + arg@ + ")"@,
{
    let mut r = String::from_str(kind);
    r.append(arg.as_str());
    r.append(")");
    r
}

impl Command {
    /// The command as written in diagnostics.
    pub fn describe(&self) -> (r: String)
        ensures
            r@ == command_text(self.ctype@),
    {
        match &self.ctype {
            CommandType::MATCH(a) => wrapped("MATCH(", a),
            CommandType::INPUT(a) => wrapped("INPUT(", a),
            CommandType::SPEAK(a) => wrapped("SPEAK(", a),
            CommandType::NEXT(a) => wrapped("NEXT(", a),
            CommandType::STAGE(a) => wrapped("STAGE(", a),
            CommandType::DEFAULT => String::from_str("DEFAULT"),
        }
    }

    /// Builds a command from its kind and line number.
    pub fn new(ctype: CommandType, line: i32) -> (r: Self)
        ensures
            r.ctype == ctype,
            r.line == line,
    {
        Command { ctype, line }
    }
}

} // verus!
