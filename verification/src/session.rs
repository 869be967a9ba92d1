//! The session: the one loaded document and the running flag, the line
//! dispatcher, and the top-level completion and hinting over command
//! names.

use vstd::prelude::*;

use crate::commands::{
    command_for, get_command, get_commands, print_output, CommandKind, ExitCommand, HelpCommand,
    LoadCommand, PrintCommand,
};
use crate::complete::{
    candidates_are, complete_print_spec, hint_print_spec, Candidate,
};
use crate::text::{find_char, find_in_str, lemma_find_char_props, rfind_char, str_starts_with};
use crate::value::JsonValue;

verus! {

/// The session state: whether the loop keeps running, and the one
/// currently loaded document, `Null` until a load succeeds.
pub struct Status {
    pub is_running: bool,
    pub json: JsonValue,
}

/// The leading token of a line: everything before the first space, or the
/// whole line.
pub open spec fn line_token(s: Seq<char>) -> Seq<char> {
    match find_char(s, ' ') {
        Some(i) => s.subrange(0, i),
        None => s,
    }
}

/// The session state after acting on a line: only `exit` changes it, by
/// clearing the running flag.
pub open spec fn act_status(st: Status, s: Seq<char>) -> Status {
    if line_token(s) == "exit"@ {
        Status { is_running: false, json: st.json }
    } else {
        st
    }
}

/// The lines acting on `s` writes before any file is read.
pub open spec fn act_lines(st: Status, s: Seq<char>) -> Seq<Seq<char>> {
    let tok = line_token(s);
    if tok == "help"@ {
        seq!["here is your help"@]
    } else if tok == "print"@ {
        seq![print_output(st.json, s)]
    } else if tok == "load"@ {
        seq!["Loading "@ + s.subrange(5, s.len() as int)]
    } else {
        Seq::empty()
    }
}

/// The file a line asks to read: only a `load` line names one.
pub open spec fn act_file_request(s: Seq<char>) -> Option<Seq<char>> {
    if line_token(s) == "load"@ {
        Some(s.subrange(5, s.len() as int))
    } else {
        None
    }
}

/// The line list carries exactly `texts`.
pub open spec fn lines_are(ls: Seq<String>, texts: Seq<Seq<char>>) -> bool {
    ls.len() == texts.len() && forall|i: int|
        0 <= i < ls.len() ==> (#[trigger] ls[i])@ == texts[i]
}

/// The four command tokens are pairwise distinct.
proof fn lemma_tokens_distinct()
    ensures
        "help"@ != "load"@,
        "help"@ != "print"@,
        "help"@ != "exit"@,
        "load"@ != "print"@,
        "load"@ != "exit"@,
        "print"@ != "exit"@,
{
    reveal_strlit("help");
    reveal_strlit("load");
    reveal_strlit("print");
    reveal_strlit("exit");
    assert("help"@[0] == 'h');
    assert("load"@[0] == 'l');
    assert("print"@[0] == 'p');
    assert("exit"@[0] == 'e');
}

/// What acting on a line asks of the surrounding loop: print these lines
/// and be done, or print them, read this file, and hand the text to
/// `LoadCommand::act`.
pub enum ActOutcome {
    Done(Vec<String>),
    NeedFile { addr: String, lines: Vec<String> },
}

/// Dispatch one submitted line on its leading token: `help` prints usage,
/// `exit` clears the running flag, `print` resolves and renders, `load`
/// asks for a file's text, and an unrecognized token is silently ignored.
pub fn act(s: String, status: &mut Status) -> (r: ActOutcome)
    requires
        line_token(s@) == "load"@ ==> s@.len() >= 5,
        line_token(s@) == "print"@ ==> s@.len() >= 6,
    ensures
        *final(status) == act_status(*old(status), s@),
        match r {
            ActOutcome::Done(lines) => act_file_request(s@) is None && lines_are(
                lines@,
                act_lines(*old(status), s@),
            ),
            ActOutcome::NeedFile { addr, lines } => act_file_request(s@) == Some(addr@)
                && lines_are(lines@, act_lines(*old(status), s@)),
        },
{
    proof {
        lemma_find_char_props(s@, ' ');
        lemma_tokens_distinct();
    }
    let token = match find_in_str(s.as_str(), ' ') {
        Some(i) => s.as_str().substring_char(0, i),
        None => s.as_str(),
    };
    match get_command(token) {
        Some(CommandKind::Help) => {
            let cmd = HelpCommand {};
            ActOutcome::Done(cmd.act())
        },
        Some(CommandKind::Exit) => {
            let cmd = ExitCommand {};
            cmd.act(status);
            ActOutcome::Done(Vec::new())
        },
        Some(CommandKind::Print) => {
            let cmd = PrintCommand {};
            let out = cmd.act(s.clone(), status);
            ActOutcome::Done(out)
        },
        Some(CommandKind::Load) => {
            let cmd = LoadCommand {};
            let addr = cmd.file_path(s.as_str());
            let mut lines: Vec<String> = Vec::new();
            let mut l = String::from_str("Loading ");
            l.append(addr.as_str());
            lines.push(l);
            ActOutcome::NeedFile { addr, lines }
        },
        None => ActOutcome::Done(Vec::new()),
    }
}



/// A `print` line never changes the session, so issuing the same print
/// twice in a row, with no load in between, prints the same line both
/// times.
pub proof fn lemma_print_idempotent(st: Status, line: Seq<char>)
    requires
        line_token(line) == "print"@,
    ensures
        act_status(st, line) == st,
        act_lines(act_status(st, line), line) == act_lines(st, line),
{
    lemma_tokens_distinct();
}

/// The command names, as completion sees them.
pub open spec fn command_names() -> Seq<Seq<char>> {
    seq!["help"@, "load"@, "print"@, "exit"@]
}

/// The names among `names` that start with `typed`, in order.
pub open spec fn matching_names(names: Seq<Seq<char>>, typed: Seq<char>) -> Seq<Seq<char>>
    decreases names.len(),
{
    if names.len() == 0 {
        Seq::empty()
    } else {
        matching_names(names.drop_last(), typed) + (if typed.is_prefix_of(names.last()) {
            seq![names.last()]
        } else {
            Seq::empty()
        })
    }
}

/// The first name among `names` that starts with `typed`, if any.
pub open spec fn first_name_match(names: Seq<Seq<char>>, typed: Seq<char>) -> Option<Seq<char>>
    decreases names.len(),
{
    if names.len() == 0 {
        None
    } else if typed.is_prefix_of(names[0]) {
        Some(names[0])
    } else {
        first_name_match(names.drop_first(), typed)
    }
}

/// What top-level completion offers: on a line with a space, the named
/// command's path completion (only `print` has one); otherwise the command
/// names starting with the text before the cursor, spliced at the start.
pub open spec fn status_complete_spec(
    st: Status,
    line: Seq<char>,
    pos: int,
    off: int,
    cands: Seq<Candidate>,
) -> bool {
    if find_char(line, ' ') is Some {
        if command_for(line_token(line)) == Some(CommandKind::Print) {
            complete_print_spec(line, pos, st.json, off, cands)
        } else {
            off == 0 && cands.len() == 0
        }
    } else {
        off == 0 && candidates_are(cands, matching_names(command_names(), line.subrange(0, pos)))
    }
}

/// What top-level hinting offers, only with the cursor at the end of the
/// line: on a line with a space, the named command's hint (only `print`
/// has one); otherwise the unseen suffix of the first command name the
/// non-empty line starts.
pub open spec fn status_hint_spec(st: Status, line: Seq<char>, pos: int) -> Option<Seq<char>> {
    if pos < line.len() {
        None
    } else if find_char(line, ' ') is Some {
        if command_for(line_token(line)) == Some(CommandKind::Print) {
            hint_print_spec(line, pos, st.json)
        } else {
            None
        }
    } else if pos > 0 {
        match first_name_match(command_names(), line) {
            Some(n) => Some(n.subrange(line.len() as int, n.len() as int)),
            None => None,
        }
    } else {
        None
    }
}

impl Status {
    /// Completion for one typed line at one cursor position.
    pub fn complete(&self, line: &str, pos: usize) -> (r: (usize, Vec<Candidate>))
        requires
            pos <= line@.len(),
            (find_char(line@, ' ') is Some && command_for(line_token(line@)) == Some(
                CommandKind::Print,
            )) ==> 6 <= pos && match rfind_char(
                line@.subrange(6, line@.len() as int),
                '.',
            ) {
                Some(d) => pos - 6 > d,
                None => true,
            },
        ensures
            status_complete_spec(*self, line@, pos as int, r.0 as int, r.1@),
    {
        proof {
            lemma_find_char_props(line@, ' ');
        }
        match find_in_str(line, ' ') {
            Some(i) => {
                let token = line.substring_char(0, i);
                match get_command(token) {
                    Some(CommandKind::Print) => {
                        proof {
                            reveal_strlit("print");
                            assert(token@ == "print"@);
                            assert(token@.len() == 5);
                            assert(i as int == 5);
                            assert(line@.len() >= 6);
                        }
                        let cmd = PrintCommand {};
                        cmd.complete(line, pos, self)
                    },
                    _ => (0, Vec::new()),
                }
            },
            None => {
                let typed = line.substring_char(0, pos);
                let names = get_commands();
                let mut out: Vec<Candidate> = Vec::new();
                let mut i: usize = 0;
                proof {
                    assert(matching_names(command_names().subrange(0, 0), typed@) =~= Seq::<
                        Seq<char>,
                    >::empty());
                }
                while i < names.len()
                    invariant
                        typed@ == line@.subrange(0, pos as int),
                        names@.len() == 4,
                        names@[0]@ == "help"@,
                        names@[1]@ == "load"@,
                        names@[2]@ == "print"@,
                        names@[3]@ == "exit"@,
                        0 <= i <= 4,
                        candidates_are(
                            out@,
                            matching_names(command_names().subrange(0, i as int), typed@),
                        ),
                    decreases names@.len() - i,
                {
                    proof {
                        let part = command_names().subrange(0, i as int + 1);
                        assert(part.drop_last() =~= command_names().subrange(0, i as int));
                        assert(part.last() == command_names()[i as int]);
                        assert(names@[i as int]@ == command_names()[i as int]);
                        if typed@.is_prefix_of(names@[i as int]@) {
                            assert(matching_names(part, typed@) =~= matching_names(
                                command_names().subrange(0, i as int),
                                typed@,
                            ).push(names@[i as int]@));
                        } else {
                            assert(matching_names(part, typed@) =~= matching_names(
                                command_names().subrange(0, i as int),
                                typed@,
                            ));
                        }
                    }
                    if str_starts_with(names[i].as_str(), typed) {
                        out.push(
                            Candidate {
                                display: names[i].clone(),
                                replacement: names[i].clone(),
                            },
                        );
                    }
                    i += 1;
                }
                proof {
                    assert(command_names().subrange(0, 4) =~= command_names());
                }
                (0, out)
            },
        }
    }

    /// The inline hint for one typed line at one cursor position.
    pub fn hint(&self, line: &str, pos: usize) -> (r: Option<String>)
        requires
            pos <= line@.len(),
        ensures
            match r {
                Some(h) => status_hint_spec(*self, line@, pos as int) == Some(h@),
                None => status_hint_spec(*self, line@, pos as int) is None,
            },
    {
        let len = line.unicode_len();
        if pos < len {
            return None;
        }
        proof {
            lemma_find_char_props(line@, ' ');
        }
        match find_in_str(line, ' ') {
            Some(i) => {
                let token = line.substring_char(0, i);
                match get_command(token) {
                    Some(CommandKind::Print) => {
                        proof {
                            reveal_strlit("print");
                            assert(token@ == "print"@);
                            assert(token@.len() == 5);
                            assert(i as int == 5);
                            assert(line@.len() >= 6);
                        }
                        let cmd = PrintCommand {};
                        cmd.hint(line, pos, self)
                    },
                    _ => None,
                }
            },
            None => {
                if pos == 0 {
                    return None;
                }
                let names = get_commands();
                proof {
                    assert(command_names().subrange(0, command_names().len() as int)
                        =~= command_names());
                }
                let mut i: usize = 0;
                while i < names.len()
                    invariant
                        len == line@.len(),
                        pos == len,
                        pos > 0,
                        find_char(line@, ' ') is None,
                        names@.len() == 4,
                        names@[0]@ == "help"@,
                        names@[1]@ == "load"@,
                        names@[2]@ == "print"@,
                        names@[3]@ == "exit"@,
                        0 <= i <= 4,
                        first_name_match(command_names(), line@) == first_name_match(
                            command_names().subrange(i as int, 4),
                            line@,
                        ),
                    decreases names@.len() - i,
                {
                    proof {
                        let rest = command_names().subrange(i as int, 4);
                        assert(rest[0] == command_names()[i as int]);
                        assert(rest.drop_first() =~= command_names().subrange(i as int + 1, 4));
                        assert(names@[i as int]@ == command_names()[i as int]);
                    }
                    if str_starts_with(names[i].as_str(), line) {
                        proof {
                            let rest = command_names().subrange(i as int, 4);
                            assert(first_name_match(rest, line@) == Some(names@[i as int]@));
                        }
                        let name = &names[i];
                        let name_len = name.as_str().unicode_len();
                        let suffix = name.as_str().substring_char(pos, name_len);
                        return Some(String::from_str(suffix));
                    }
                    i += 1;
                }
                proof {
                    assert(command_names().subrange(4, 4).len() == 0);
                }
                None
            },
        }
    }
}

} // verus!
