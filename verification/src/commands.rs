//! The commands a submitted line can name, each a small capability
//! holder: act on the session, and for `print` also complete and hint.

use vstd::prelude::*;

use crate::complete::{complete_print, complete_print_spec, hint_print, hint_print_spec, Candidate};
use crate::parse::{json_doc_of, json_err_of, parse_json};
use crate::render::{json_value_to_str, render_spec};
use crate::resolve::{error_text, resolve_path, resolve_spec, Resolution};
use crate::session::Status;
use crate::text::{rfind_char, str_eq};
use crate::value::{value_wf, JsonValue};

verus! {

/// The closed set of command kinds a leading token can name.
pub enum CommandKind {
    Help,
    Load,
    Print,
    Exit,
}

/// Which command a leading token names, by exact match.
pub open spec fn command_for(s: Seq<char>) -> Option<CommandKind> {
    if s == "help"@ {
        Some(CommandKind::Help)
    } else if s == "load"@ {
        Some(CommandKind::Load)
    } else if s == "print"@ {
        Some(CommandKind::Print)
    } else if s == "exit"@ {
        Some(CommandKind::Exit)
    } else {
        None
    }
}

/// Look a command up by its leading token; unrecognized tokens name none.
pub fn get_command(s: &str) -> (r: Option<CommandKind>)
    ensures
        r == command_for(s@),
{
    if str_eq(s, "help") {
        Some(CommandKind::Help)
    } else if str_eq(s, "load") {
        Some(CommandKind::Load)
    } else if str_eq(s, "print") {
        Some(CommandKind::Print)
    } else if str_eq(s, "exit") {
        Some(CommandKind::Exit)
    } else {
        None
    }
}

/// The command names offered for top-level completion, in fixed order.
pub fn get_commands() -> (r: Vec<String>)
    ensures
        r@.len() == 4,
        r@[0]@ == "help"@,
        r@[1]@ == "load"@,
        r@[2]@ == "print"@,
        r@[3]@ == "exit"@,
{
    let mut v: Vec<String> = Vec::new();
    v.push(String::from_str("help"));
    v.push(String::from_str("load"));
    v.push(String::from_str("print"));
    v.push(String::from_str("exit"));
    v
}

/// What a `print` line writes: the rendered value the path names, or the
/// diagnostic of the typed resolution failure.
pub open spec fn print_output(doc: JsonValue, args: Seq<char>) -> Seq<char> {
    match resolve_spec(doc, args.subrange(6, args.len() as int)) {
        Resolution::Found(v) => render_spec(v),
        res => error_text(res),
    }
}

/// Resolves a path against the session document and renders the value it
/// names; offers path completion and hinting.
pub struct PrintCommand {}

impl PrintCommand {
    /// Resolve the path after the command token and render the result, or
    /// report the failure; the session is read, never changed.
    pub fn act(&self, args: String, status: &Status) -> (out: Vec<String>)
        requires
            args@.len() >= 6,
        ensures
            out@.len() == 1,
            out@[0]@ == print_output(status.json, args@),
    {
        let len = args.as_str().unicode_len();
        let path = args.as_str().substring_char(6, len);
        let mut out: Vec<String> = Vec::new();
        match resolve_path(&status.json, path) {
            Ok(v) => {
                out.push(json_value_to_str(v));
            },
            Err(e) => {
                out.push(e.message());
            },
        }
        out
    }

    /// Path completion for a typed `print` line.
    pub fn complete(&self, line: &str, pos: usize, status: &Status) -> (r: (
        usize,
        Vec<Candidate>,
    ))
        requires
            line@.len() >= 6,
            6 <= pos <= line@.len(),
            match rfind_char(line@.subrange(6, line@.len() as int), '.') {
                Some(d) => pos - 6 > d,
                None => true,
            },
        ensures
            complete_print_spec(line@, pos as int, status.json, r.0 as int, r.1@),
    {
        complete_print(line, pos, &status.json)
    }

    /// Inline hint for a typed `print` line.
    pub fn hint(&self, line: &str, pos: usize, status: &Status) -> (r: Option<String>)
        requires
            line@.len() >= 6,
            6 <= pos <= line@.len(),
        ensures
            match r {
                Some(h) => hint_print_spec(line@, pos as int, status.json) == Some(h@),
                None => hint_print_spec(line@, pos as int, status.json) is None,
            },
    {
        hint_print(line, pos, &status.json)
    }
}

/// Prints the fixed usage text; the session is untouched.
pub struct HelpCommand {}

impl HelpCommand {
    pub fn act(&self) -> (out: Vec<String>)
        ensures
            out@.len() == 1,
            out@[0]@ == "here is your help"@,
    {
        let mut out: Vec<String> = Vec::new();
        out.push(String::from_str("here is your help"));
        out
    }
}

/// Stops the session loop.
pub struct ExitCommand {}

impl ExitCommand {
    pub fn act(&self, status: &mut Status)
        ensures
            !final(status).is_running,
            final(status).json == old(status).json,
    {
        status.is_running = false;
    }
}

/// Replaces the session document with a tree parsed from a file's text.
pub struct LoadCommand {}

impl LoadCommand {
    /// The file path a load line names: everything after the token.
    pub fn file_path(&self, args: &str) -> (r: String)
        requires
            args@.len() >= 5,
        ensures
            r@ == args@.subrange(5, args@.len() as int),
    {
        let len = args.unicode_len();
        String::from_str(args.substring_char(5, len))
    }

    /// Install a parse outcome: on success the document is replaced
    /// wholesale; on failure it is untouched and the failure is reported.
    pub fn apply_parsed(&self, parsed: Result<JsonValue, String>, status: &mut Status) -> (out: Vec<
        String,
    >)
        ensures
            final(status).is_running == old(status).is_running,
            match parsed {
                Ok(v) => final(status).json == v && out@.len() == 0,
                Err(e) => final(status).json == old(status).json && out@.len() == 2
                    && out@[0]@ == "Unable to parse file"@ && out@[1]@ == "Error: "@ + e@,
            },
    {
        match parsed {
            Ok(v) => {
                status.json = v;
                Vec::new()
            },
            Err(e) => {
                let mut out: Vec<String> = Vec::new();
                out.push(String::from_str("Unable to parse file"));
                let mut l = String::from_str("Error: ");
                l.append(e.as_str());
                out.push(l);
                out
            },
        }
    }

    /// Act on the text read from `addr`: install the tree the text parses
    /// to, or leave the document unchanged and report the read or parse
    /// failure, with the parser's own diagnostic on its second line.
    pub fn act(&self, addr: &str, file: Result<String, String>, status: &mut Status) -> (out:
        Vec<String>)
        ensures
            final(status).is_running == old(status).is_running,
            match file {
                Ok(content) => match json_doc_of(content@) {
                    Some(v) => final(status).json == v && value_wf(v) && out@.len() == 0,
                    None => final(status).json == old(status).json && out@.len() == 2 && out@[0]@
                        == "Unable to parse file"@ && out@[1]@ == "Error: "@ + json_err_of(
                        content@,
                    ),
                },
                Err(e) => final(status).json == old(status).json && out@.len() == 2 && out@[0]@
                    == "Unable to open file "@ + addr@ && out@[1]@ == "Error: "@ + e@,
            },
    {
        match file {
            Ok(content) => {
                let parsed = parse_json(content.as_str());
                self.apply_parsed(parsed, status)
            },
            Err(err) => {
                let mut out: Vec<String> = Vec::new();
                let mut l = String::from_str("Unable to open file ");
                l.append(addr);
                out.push(l);
                let mut l2 = String::from_str("Error: ");
                l2.append(err.as_str());
                out.push(l2);
                out
            },
        }
    }
}

} // verus!
