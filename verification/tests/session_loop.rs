use json_shell::commands::{get_command, get_commands, CommandKind, LoadCommand};
use json_shell::session::{act, ActOutcome, Status};
use json_shell::JsonValue;

fn fresh_status() -> Status {
    Status {
        is_running: true,
        json: JsonValue::Null,
    }
}

fn done_lines(r: ActOutcome) -> Vec<String> {
    match r {
        ActOutcome::Done(lines) => lines,
        ActOutcome::NeedFile { .. } => panic!("expected a finished command"),
    }
}

#[test]
fn load_then_print_renders_loaded_value() {
    let mut st = fresh_status();
    let cmd = LoadCommand {};
    let out = cmd.act("a.json", Ok("{\"a\":1}".to_string()), &mut st);
    assert!(out.is_empty());
    let printed = done_lines(act("print a".to_string(), &mut st));
    assert_eq!(printed, vec!["1".to_string()]);
}

#[test]
fn failed_read_leaves_document_unchanged() {
    let mut st = fresh_status();
    let cmd = LoadCommand {};
    cmd.act("a.json", Ok("{\"a\":1}".to_string()), &mut st);
    let out = cmd.act(
        "nonexistent.json",
        Err("No such file or directory".to_string()),
        &mut st,
    );
    assert_eq!(out.len(), 2);
    assert_eq!(out[0], "Unable to open file nonexistent.json");
    assert_eq!(out[1], "Error: No such file or directory");
    // the document is still the one loaded before
    let printed = done_lines(act("print a".to_string(), &mut st));
    assert_eq!(printed, vec!["1".to_string()]);
}

#[test]
fn failed_parse_leaves_document_unchanged() {
    let mut st = fresh_status();
    let cmd = LoadCommand {};
    cmd.act("a.json", Ok("{\"a\":1}".to_string()), &mut st);
    let out = cmd.act("b.json", Ok("{not json".to_string()), &mut st);
    assert_eq!(out.len(), 2);
    assert_eq!(out[0], "Unable to parse file");
    assert!(out[1].starts_with("Error: "));
    let printed = done_lines(act("print a".to_string(), &mut st));
    assert_eq!(printed, vec!["1".to_string()]);
}

#[test]
fn print_twice_gives_identical_output() {
    let mut st = fresh_status();
    let cmd = LoadCommand {};
    cmd.act(
        "doc.json",
        Ok("{\"owner\":{\"access\":\"admin\"},\"tags\":[1,2]}".to_string()),
        &mut st,
    );
    let first = done_lines(act("print owner.access".to_string(), &mut st));
    let second = done_lines(act("print owner.access".to_string(), &mut st));
    assert_eq!(first, second);
    assert_eq!(first, vec!["\"admin\"".to_string()]);
}

#[test]
fn print_reports_resolution_failures() {
    let mut st = fresh_status();
    let cmd = LoadCommand {};
    cmd.act("doc.json", Ok("{\"tags\":[1,2]}".to_string()), &mut st);
    assert_eq!(
        done_lines(act("print tags.5".to_string(), &mut st)),
        vec!["index 5 not found".to_string()]
    );
    assert_eq!(
        done_lines(act("print tags.x".to_string(), &mut st)),
        vec!["Expected x to be an integer".to_string()]
    );
    assert_eq!(
        done_lines(act("print absent".to_string(), &mut st)),
        vec!["Key absent not found".to_string()]
    );
}

#[test]
fn load_line_asks_for_the_named_file() {
    let mut st = fresh_status();
    match act("load some/file.json".to_string(), &mut st) {
        ActOutcome::NeedFile { addr, lines } => {
            assert_eq!(addr, "some/file.json");
            assert_eq!(lines, vec!["Loading some/file.json".to_string()]);
        }
        ActOutcome::Done(_) => panic!("load must ask for the file"),
    }
    assert!(st.is_running);
}

#[test]
fn exit_clears_the_running_flag() {
    let mut st = fresh_status();
    let out = done_lines(act("exit".to_string(), &mut st));
    assert!(out.is_empty());
    assert!(!st.is_running);
}

#[test]
fn help_prints_usage_text() {
    let mut st = fresh_status();
    let out = done_lines(act("help".to_string(), &mut st));
    assert_eq!(out, vec!["here is your help".to_string()]);
}

#[test]
fn unknown_command_is_silently_ignored() {
    let mut st = fresh_status();
    let out = done_lines(act("frobnicate now".to_string(), &mut st));
    assert!(out.is_empty());
    assert!(st.is_running);
}

#[test]
fn command_lookup_is_exact() {
    assert!(matches!(get_command("help"), Some(CommandKind::Help)));
    assert!(matches!(get_command("load"), Some(CommandKind::Load)));
    assert!(matches!(get_command("print"), Some(CommandKind::Print)));
    assert!(matches!(get_command("exit"), Some(CommandKind::Exit)));
    assert!(get_command("Help").is_none());
    assert!(get_command("printx").is_none());
    assert!(get_command("").is_none());
}

#[test]
fn command_list_is_fixed() {
    assert_eq!(get_commands(), vec!["help", "load", "print", "exit"]);
}

#[test]
fn load_keeps_canonical_number_text() {
    let mut st = fresh_status();
    let cmd = LoadCommand {};
    let out = cmd.act("n.json", Ok("{\"pi\":3.14,\"n\":-7}".to_string()), &mut st);
    assert!(out.is_empty());
    assert_eq!(
        done_lines(act("print pi".to_string(), &mut st)),
        vec!["3.14".to_string()]
    );
    assert_eq!(
        done_lines(act("print n".to_string(), &mut st)),
        vec!["-7".to_string()]
    );
}

#[test]
fn load_nested_document_supports_deep_paths() {
    let mut st = fresh_status();
    let cmd = LoadCommand {};
    let out = cmd.act(
        "d.json",
        Ok("{\"owner\":{\"access\":\"admin\"},\"tags\":[1,2]}".to_string()),
        &mut st,
    );
    assert!(out.is_empty());
    assert_eq!(
        done_lines(act("print tags.0".to_string(), &mut st)),
        vec!["1".to_string()]
    );
    assert_eq!(
        done_lines(act("print owner".to_string(), &mut st)),
        vec!["{access: \"admin\"}".to_string()]
    );
}
