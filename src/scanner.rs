use vstd::prelude::*;

use crate::command::{Command, CommandModel, CommandType};
use crate::error::Error;
use crate::text::{is_space, split_on, split_text, trim_text, trimmed, views};

verus! {

/// The first index from `i` on that holds white space, or the length.
pub open spec fn word_end(s: Seq<char>, i: int) -> int
    decreases s.len() - i,
{
    if i < 0 || i >= s.len() {
        s.len() as int
    } else if is_space(s[i]) {
        i
    } else {
        word_end(s, i + 1)
    }
}

/// The first index from `i` on that holds no white space, or the length.
pub open spec fn space_end(s: Seq<char>, i: int) -> int
    decreases s.len() - i,
{
    if i < 0 || i >= s.len() {
        s.len() as int
    } else if !is_space(s[i]) {
        i
    } else {
        space_end(s, i + 1)
    }
}

/// `s` cut at its first run of white space: the text before the run and the
/// text after it (empty when `s` holds no white space).
pub open spec fn first_word_split(s: Seq<char>) -> (Seq<char>, Seq<char>) {
    let w = word_end(s, 0);
    if w >= s.len() {
        (s, Seq::<char>::empty())
    } else {
        (s.subrange(0, w), s.subrange(space_end(s, w), s.len() as int))
    }
}

/// Relies on regex's `Regex::splitn` with the expression `\s+` and a limit of
/// two: the text before the leftmost (longest) run of Unicode white space,
/// then the rest after that run. The expression is a valid constant.
#[verifier::external_body]
fn split_command(line: &str) -> (r: (String, String))
    ensures
        (r.0@, r.1@) == first_word_split(line@),
{
    let re = regex::Regex::new(r"\s+").unwrap();
    let mut parts = re.splitn(line, 2);
    let command = parts.next().unwrap_or("");
    let argument = parts.next().unwrap_or("");
    (command.to_string(), argument.to_string())
}

/// What a line of a script says: `None` for a blank line, `Some(None)` for a
/// line that is not a valid command, `Some(Some(c))` for the command `c`.
pub open spec fn scan_line_spec(line: Seq<char>) -> Option<Option<CommandModel>> {
    let t = trimmed(line, false);
    if t.len() == 0 {
        None
    } else {
        let (word, arg) = first_word_split(t);
        if word == "MATCH"@ {
            Some(Some(CommandModel::Match(arg)))
        } else if word == "INPUT"@ {
            Some(Some(CommandModel::Input(arg)))
        } else if word == "SPEAK"@ {
            Some(Some(CommandModel::Speak(arg)))
        } else if word == "NEXT"@ {
            Some(Some(CommandModel::Next(arg)))
        } else if word == "STAGE"@ {
            Some(Some(CommandModel::Stage(arg)))
        } else if word == "DEFAULT"@ && arg.len() == 0 {
            Some(Some(CommandModel::Default))
        } else {
            Some(None)
        }
    }
}

/// The lines of a text: its pieces between line feeds, without the empty
/// piece after a final line feed.
pub open spec fn lines_of(s: Seq<char>) -> Seq<Seq<char>> {
    let p = split_on(s, '\n');
    if p.len() > 0 && p.last().len() == 0 {
        p.drop_last()
    } else {
        p
    }
}

/// The commands of `lines` with their line numbers, counted on from `start`;
/// `None` when a line is not a valid command.
pub open spec fn scan_lines(lines: Seq<Seq<char>>, start: int) -> Option<Seq<(CommandModel, i32)>>
    decreases lines.len(),
{
    if lines.len() == 0 {
        Some(Seq::empty())
    } else {
        match scan_lines(lines.drop_last(), start) {
            None => None,
            Some(cmds) => match scan_line_spec(lines.last()) {
                None => Some(cmds),
                Some(None) => None,
                Some(Some(c)) => Some(cmds.push((c, (start + lines.len()) as i32))),
            },
        }
    }
}

pub open spec fn commands_view(v: Seq<Command>) -> Seq<(CommandModel, i32)> {
    v.map_values(|c: Command| (c.ctype@, c.line))
}

proof fn lemma_scan_failure_sticks(lines: Seq<Seq<char>>, start: int, i: int)
    requires
        0 <= i <= lines.len(),
        scan_lines(lines.take(i), start) is None,
    ensures
        scan_lines(lines, start) is None,
    decreases lines.len() - i,
{
    if i == lines.len() {
        assert(lines.take(i) =~= lines);
    } else {
        let t = lines.drop_last();
        assert(t.take(i) =~= lines.take(i));
        lemma_scan_failure_sticks(t, start, i);
    }
}

/// Splits script text into commands, one per non-blank line.
pub struct Scanner {
    source: String,
    current: usize,
}

impl Scanner {
    /// The text being scanned.
    pub closed spec fn text(&self) -> Seq<char> {
        self.source@
    }

    /// The number of lines scanned so far.
    pub closed spec fn lines_done(&self) -> int {
        self.current as int
    }

    /// A scanner over `source`, at its start.
    pub fn new(source: String) -> (r: Self)
        ensures
            r.text() == source@,
            r.lines_done() == 0,
    {
        Self { source, current: 0 }
    }

    /// The commands of the source, each with its 1-based line number; a
    /// scan error for the first line that is not a valid command.
    pub fn scan(&mut self) -> (r: Result<Vec<Command>, Error>)
        requires
            old(self).lines_done() + lines_of(old(self).text()).len() <= usize::MAX,
        ensures
            final(self).text() == old(self).text(),
            scan_lines(lines_of(old(self).text()), old(self).lines_done()) is Some ==> r is Ok
                && commands_view(r->Ok_0@) == scan_lines(lines_of(old(self).text()), old(self).lines_done())->0
                && final(self).lines_done() == old(self).lines_done() + lines_of(old(self).text()).len(),
            scan_lines(lines_of(old(self).text()), old(self).lines_done()) is None ==> r is Err
                && r->Err_0 is Scan,
    {
        let ghost start = self.current as int;
        let pieces = split_text(self.source.as_str(), '\n');
        let ghost lines = lines_of(self.source@);
        proof {
            crate::text::lemma_split_on_nonempty(self.source@, '\n');
        }
        let mut count = pieces.len();
        if count > 0 && pieces[count - 1].unicode_len() == 0 {
            count = count - 1;
        }
        proof {
            assert(lines =~= views(pieces@).take(count as int));
        }
        let mut commands: Vec<Command> = Vec::new();
        let mut k: usize = 0;
        proof {
            assert(lines.take(0) =~= Seq::<Seq<char>>::empty());
            assert(commands_view(commands@) =~= Seq::<(CommandModel, i32)>::empty());
        }
        while k < count
            invariant
                self.source@ == old(self).source@,
                lines == lines_of(old(self).source@),
                lines =~= views(pieces@).take(count as int),
                count <= pieces@.len(),
                k <= count,
                start == old(self).current as int,
                self.current as int == start + k,
                start + lines.len() <= usize::MAX,
                scan_lines(lines.take(k as int), start) == Some(commands_view(commands@)),
            decreases count - k,
        {
            proof {
                assert(lines.take(k + 1).drop_last() =~= lines.take(k as int));
                assert(lines.take(k + 1).last() == pieces@[k as int]@);
            }
            self.current = self.current + 1;
            match self.scan_line(pieces[k].as_str()) {
                None => {},
                Some(Ok(ctype)) => {
                    let ghost before = commands@;
                    commands.push(Command::new(ctype, self.current as i32));
                    proof {
                        assert(commands_view(commands@) =~= commands_view(before).push(
                            (ctype@, (start + k + 1) as i32),
                        ));
                    }
                },
                Some(Err(e)) => {
                    proof { lemma_scan_failure_sticks(lines, start, k + 1); }
                    return Err(e);
                },
            }
            k = k + 1;
        }
        proof {
            assert(lines.take(count as int) =~= lines);
        }
        Ok(commands)
    }

    /// The command a single line holds: `None` for a blank line, a scan error
    /// for an unknown command word or for `DEFAULT` with an argument.
    pub fn scan_line(&self, line: &str) -> (r: Option<Result<CommandType, Error>>)
        ensures
            scan_line_spec(line@) is None ==> r is None,
            scan_line_spec(line@) matches Some(Some(c)) ==> r is Some && r->0 is Ok && r->0->Ok_0@ == c,
            scan_line_spec(line@) matches Some(None) ==> r is Some && r->0 is Err && r->0->Err_0 is Scan,
    {
        let line = trim_text(line, false);
        if line.unicode_len() == 0 {
            return None;
        }
        let (command, argument) = split_command(line.as_str());
        proof {
            reveal_strlit("MATCH");
            reveal_strlit("INPUT");
            reveal_strlit("SPEAK");
            reveal_strlit("NEXT");
            reveal_strlit("STAGE");
            reveal_strlit("DEFAULT");
        }
        if command == String::from_str("MATCH") {
            Some(Ok(CommandType::MATCH(argument)))
        } else if command == String::from_str("INPUT") {
            Some(Ok(CommandType::INPUT(argument)))
        } else if command == String::from_str("SPEAK") {
            Some(Ok(CommandType::SPEAK(argument)))
        } else if command == String::from_str("NEXT") {
            Some(Ok(CommandType::NEXT(argument)))
        } else if command == String::from_str("STAGE") {
            Some(Ok(CommandType::STAGE(argument)))
        } else if command == String::from_str("DEFAULT") {
            if argument.unicode_len() == 0 {
                Some(Ok(CommandType::DEFAULT))
            } else {
                Some(Err(self.error()))
            }
        } else {
            Some(Err(self.error()))
        }
    }

    fn error(&self) -> (r: Error)
        ensures
            r is Scan,
    {
        Error::Scan
    }
}

} // verus!
