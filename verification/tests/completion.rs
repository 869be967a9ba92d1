use json_shell::commands::PrintCommand;
use json_shell::render::json_value_to_str;
use json_shell::resolve::resolve_path;
use json_shell::session::Status;
use json_shell::JsonValue;

fn sample_status() -> Status {
    // {"owner":{"access":"admin"},"tags":[1,2]}
    Status {
        is_running: true,
        json: JsonValue::Object(vec![
            (
                "owner".to_string(),
                JsonValue::Object(vec![(
                    "access".to_string(),
                    JsonValue::Text("admin".to_string()),
                )]),
            ),
            (
                "tags".to_string(),
                JsonValue::Array(vec![
                    JsonValue::Number("1".to_string()),
                    JsonValue::Number("2".to_string()),
                ]),
            ),
        ]),
    }
}

#[test]
fn complete_after_dot_offers_object_keys() {
    let st = sample_status();
    let cmd = PrintCommand {};
    let line = "print owner.";
    let (off, cands) = cmd.complete(line, line.len(), &st);
    assert_eq!(off, 12);
    assert_eq!(cands.len(), 1);
    assert_eq!(cands[0].display, "access");
    assert_eq!(cands[0].replacement, "access");
}

#[test]
fn offered_candidate_resolves_when_spliced_in() {
    let st = sample_status();
    let cmd = PrintCommand {};
    let line = "print owner.";
    let (_, cands) = cmd.complete(line, line.len(), &st);
    let full_path = format!("owner.{}", cands[0].replacement);
    let v = resolve_path(&st.json, &full_path).expect("candidate must resolve");
    assert_eq!(json_value_to_str(v), "\"admin\"");
}

#[test]
fn complete_array_offers_every_index_unfiltered() {
    let st = sample_status();
    let cmd = PrintCommand {};
    // the partial segment "9" matches no index, yet all indices are offered
    let line = "print tags.9";
    let (off, cands) = cmd.complete(line, line.len(), &st);
    assert_eq!(off, 11);
    let texts: Vec<&str> = cands.iter().map(|c| c.replacement.as_str()).collect();
    assert_eq!(texts, vec!["0", "1"]);
}

#[test]
fn complete_without_dot_filters_root_keys_by_prefix() {
    let st = sample_status();
    let cmd = PrintCommand {};
    let line = "print ow";
    let (off, cands) = cmd.complete(line, line.len(), &st);
    assert_eq!(off, 6);
    assert_eq!(cands.len(), 1);
    assert_eq!(cands[0].replacement, "owner");
}

#[test]
fn complete_unresolvable_prefix_offers_nothing_at_zero() {
    let st = sample_status();
    let cmd = PrintCommand {};
    let line = "print absent.";
    let (off, cands) = cmd.complete(line, line.len(), &st);
    assert_eq!(off, 0);
    assert!(cands.is_empty());
}

#[test]
fn complete_scalar_in_scope_offers_nothing() {
    let st = sample_status();
    let cmd = PrintCommand {};
    let line = "print owner.access.";
    let (off, cands) = cmd.complete(line, line.len(), &st);
    assert_eq!(off, 19);
    assert!(cands.is_empty());
}

#[test]
fn complete_cursor_mid_segment_uses_text_before_cursor() {
    let st = sample_status();
    let cmd = PrintCommand {};
    // cursor right after "print o": only the text before the cursor filters
    let (off, cands) = cmd.complete("print owner", 7, &st);
    assert_eq!(off, 6);
    assert_eq!(cands.len(), 1);
    assert_eq!(cands[0].replacement, "owner");
}

#[test]
fn status_complete_offers_command_names() {
    let st = sample_status();
    let (off, cands) = st.complete("pr", 2);
    assert_eq!(off, 0);
    assert_eq!(cands.len(), 1);
    assert_eq!(cands[0].replacement, "print");
}

#[test]
fn status_complete_empty_line_offers_all_commands() {
    let st = sample_status();
    let (off, cands) = st.complete("", 0);
    assert_eq!(off, 0);
    let texts: Vec<&str> = cands.iter().map(|c| c.replacement.as_str()).collect();
    assert_eq!(texts, vec!["help", "load", "print", "exit"]);
}

#[test]
fn status_complete_delegates_print_lines() {
    let st = sample_status();
    let line = "print tags.";
    let (off, cands) = st.complete(line, line.len());
    assert_eq!(off, 11);
    assert_eq!(cands.len(), 2);
}

#[test]
fn status_complete_other_commands_offer_nothing() {
    let st = sample_status();
    let (off, cands) = st.complete("load somefile", 13);
    assert_eq!(off, 0);
    assert!(cands.is_empty());
}
