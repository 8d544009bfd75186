//! What the loop does with a line: read on, run a command, or compile.

use vstd::prelude::*;
use crate::parser::{classify, parse_input, ParseResult};
use crate::text::{append_chars, chars_of, has_at, holds_at, string_of};
use crate::words::{trim, trimmed};

verus! {

/// What the loop does next.
#[derive(Debug, PartialEq, Eq)]
pub enum Step {
    /// The text is not finished: keep it and read another line.
    ReadMore,
    /// `/help`: print the list of commands.
    Help,
    /// `/clear` or `/reset`: forget the code accepted so far.
    Clear,
    /// `/exit` or `/quit`: leave.
    Exit,
    /// `/debug`: print the code accepted so far.
    Debug,
    /// Any other command: say that it is not known.
    Unknown,
    /// Compile and run `source`; `modified` says whether the line added
    /// anything to the code accepted so far.
    Run { source: String, modified: bool },
}

/// A `Step` with its text as a sequence of characters.
pub enum Plan {
    ReadMore,
    Help,
    Clear,
    Exit,
    Debug,
    Unknown,
    Run { source: Seq<char>, modified: bool },
}

impl View for Step {
    type V = Plan;

    open spec fn view(&self) -> Plan {
        match self {
            Step::ReadMore => Plan::ReadMore,
            Step::Help => Plan::Help,
            Step::Clear => Plan::Clear,
            Step::Exit => Plan::Exit,
            Step::Debug => Plan::Debug,
            Step::Unknown => Plan::Unknown,
            Step::Run { source, modified } => Plan::Run { source: source@, modified: *modified },
        }
    }
}

/// Whether `text` starts with `word`.
pub open spec fn starts_with(text: Seq<char>, word: Seq<char>) -> bool {
    holds_at(text, 0, word)
}

/// Whether `text` ends with `word`.
pub open spec fn ends_with(text: Seq<char>, word: Seq<char>) -> bool {
    holds_at(text, text.len() - word.len(), word)
}

/// Whether `line` is a command: it starts with one slash, not with two.
pub open spec fn is_command(line: Seq<char>) -> bool {
    starts_with(line, seq!['/']) && !starts_with(line, seq!['/', '/'])
}

/// What the command `line` asks for.
pub open spec fn command_plan(line: Seq<char>) -> Plan {
    if line == seq!['/', 'h', 'e', 'l', 'p'] {
        Plan::Help
    } else if line == seq!['/', 'c', 'l', 'e', 'a', 'r'] || line == seq![
        '/',
        'r',
        'e',
        's',
        'e',
        't',
    ] {
        Plan::Clear
    } else if line == seq!['/', 'e', 'x', 'i', 't'] || line == seq!['/', 'q', 'u', 'i', 't'] {
        Plan::Exit
    } else if line == seq!['/', 'd', 'e', 'b', 'u', 'g'] {
        Plan::Debug
    } else {
        Plan::Unknown
    }
}

/// `contents`, closed with a semicolon and a newline unless it is empty or
/// ends with a semicolon already, white space aside.
pub open spec fn closed_off(contents: Seq<char>) -> Seq<char> {
    if contents.len() > 0 && !ends_with(trim(contents), seq![';']) {
        contents + seq![';', '\n']
    } else {
        contents
    }
}

/// The code to compile: the code accepted so far, closed off, and then
/// `line`, with a newline after it if it ends with a semicolon, and with a
/// semicolon after that if it needs one.
pub open spec fn assembled(contents: Seq<char>, line: Seq<char>, needs_semicolon: bool) -> Seq<
    char,
> {
    closed_off(contents) + line + (if ends_with(line, seq![';']) {
        seq!['\n']
    } else {
        Seq::empty()
    }) + (if needs_semicolon {
        seq![';']
    } else {
        Seq::empty()
    })
}

/// What the loop does when `buffer` has been typed and `contents` is the
/// code accepted so far. Unfinished text is read on. Finished text is a
/// command or code, by how it starts once the white space around it is
/// gone.
pub open spec fn plan(contents: Seq<char>, buffer: Seq<char>) -> Plan {
    let line = trim(buffer);
    if classify(buffer) == ParseResult::Incomplete {
        Plan::ReadMore
    } else if is_command(line) {
        command_plan(line)
    } else {
        Plan::Run {
            source: assembled(
                contents,
                line,
                classify(buffer) == ParseResult::RequiresSemicolon,
            ),
            modified: line.len() > 0,
        }
    }
}

/// Whether `line` is `word`.
fn is_word(line: &Vec<char>, word: &str) -> (same: bool)
    ensures
        same == (line@ == word@),
{
    let chars = chars_of(word);
    let same = line.len() == chars.len() && has_at(line, 0, &chars);
    proof {
        if same {
            assert(line@.subrange(0, line@.len() as int) =~= line@);
        }
        if line@ == word@ {
            assert(line@.subrange(0, line@.len() as int) =~= line@);
        }
    }
    same
}

/// What the command `line` asks for.
pub fn command_step(line: &Vec<char>) -> (step: Step)
    ensures
        step@ == command_plan(line@),
{
    proof {
        reveal_strlit("/help");
        reveal_strlit("/clear");
        reveal_strlit("/reset");
        reveal_strlit("/exit");
        reveal_strlit("/quit");
        reveal_strlit("/debug");
        assert("/help"@ =~= seq!['/', 'h', 'e', 'l', 'p']);
        assert("/clear"@ =~= seq!['/', 'c', 'l', 'e', 'a', 'r']);
        assert("/reset"@ =~= seq!['/', 'r', 'e', 's', 'e', 't']);
        assert("/exit"@ =~= seq!['/', 'e', 'x', 'i', 't']);
        assert("/quit"@ =~= seq!['/', 'q', 'u', 'i', 't']);
        assert("/debug"@ =~= seq!['/', 'd', 'e', 'b', 'u', 'g']);
    }
    if is_word(line, "/help") {
        Step::Help
    } else if is_word(line, "/clear") || is_word(line, "/reset") {
        Step::Clear
    } else if is_word(line, "/exit") || is_word(line, "/quit") {
        Step::Exit
    } else if is_word(line, "/debug") {
        Step::Debug
    } else {
        Step::Unknown
    }
}

/// Whether `text` ends with the character `c`.
fn ends_with_char(text: &Vec<char>, c: char) -> (ends: bool)
    ensures
        ends == ends_with(text@, seq![c]),
{
    let ends = text.len() > 0 && text[text.len() - 1] == c;
    proof {
        if text.len() > 0 {
            assert(text@.subrange(text@.len() - 1, text@.len() as int) =~= seq![text@.last()]);
            assert(seq![text@.last()][0] == text@.last());
        }
    }
    ends
}

/// Whether `line` is a command.
pub fn starts_command(line: &Vec<char>) -> (command: bool)
    ensures
        command == is_command(line@),
{
    let command = line.len() > 0 && line[0] == '/' && !(line.len() > 1 && line[1] == '/');
    proof {
        if line.len() > 0 {
            assert(line@.subrange(0, 1) =~= seq![line@[0]]);
            assert(seq![line@[0]][0] == line@[0]);
        }
        if line.len() > 1 {
            assert(line@.subrange(0, 2) =~= seq![line@[0], line@[1]]);
        }
    }
    command
}

/// The code to compile when `line` has been typed after `contents`.
pub fn assemble(contents: &Vec<char>, line: &Vec<char>, needs_semicolon: bool) -> (source: Vec<
    char,
>)
    ensures
        source@ == assembled(contents@, line@, needs_semicolon),
{
    let mut source: Vec<char> = Vec::new();
    append_chars(&mut source, contents);
    if contents.len() > 0 {
        let tight = trimmed(contents);
        if !ends_with_char(&tight, ';') {
            source.push(';');
            source.push('\n');
        }
    }
    append_chars(&mut source, line);
    if ends_with_char(line, ';') {
        source.push('\n');
    }
    if needs_semicolon {
        source.push(';');
    }
    source
}

/// Whether the code has to be compiled before it is run: it has if the
/// line changed it, or if nothing has been built yet.
pub fn needs_compiling(modified: bool, has_executable: bool) -> (needed: bool)
    ensures
        needed == (modified || !has_executable),
{
    modified || !has_executable
}

/// The code accepted so far once `source` has been compiled and run:
/// `source` if that went well, and `contents` as it was if it did not.
pub fn contents_after_run(contents: String, source: String, success: bool) -> (kept: String)
    ensures
        kept@ == (if success {
            source@
        } else {
            contents@
        }),
{
    if success {
        source
    } else {
        contents
    }
}

/// Decides what the loop does when `buffer` has been typed and `contents`
/// is the code accepted so far.
pub fn next_step(contents: &str, buffer: &str) -> (step: Step)
    ensures
        step@ == plan(contents@, buffer@),
{
    let result = parse_input(buffer);
    if let ParseResult::Incomplete = result {
        return Step::ReadMore;
    }
    let typed = chars_of(buffer);
    let line = trimmed(&typed);
    if starts_command(&line) {
        return command_step(&line);
    }
    let needs_semicolon = match result {
        ParseResult::RequiresSemicolon => true,
        _ => false,
    };
    let accepted = chars_of(contents);
    let source = assemble(&accepted, &line, needs_semicolon);
    Step::Run { source: string_of(&source), modified: line.len() > 0 }
}

} // verus!
