use timewarp::session::Session;
use timewarp::session::execute;

fn chars(s: &str) -> Vec<char> {
    s.chars().collect()
}

fn text(v: &Vec<char>) -> String {
    v.iter().collect()
}

fn run_basic(session: &mut Session, source: &str) -> Vec<String> {
    let out = execute(session, &chars(source), &chars("TW BASIC"), 100_000);
    out.iter().map(text).collect()
}

fn get_var(session: &Session, name: &str) -> Option<String> {
    session.vars.get(&chars(name)).map(text)
}

#[test]
fn print_quoted_literal_emits_contents() {
    let mut s = Session::new();
    assert_eq!(run_basic(&mut s, "PRINT \"X\""), vec!["X"]);
}

#[test]
fn print_undefined_variable_reports_it() {
    let mut s = Session::new();
    assert_eq!(run_basic(&mut s, "PRINT FOO"), vec!["Undefined variable: FOO"]);
}

#[test]
fn print_empty_argument_emits_blank_line() {
    let mut s = Session::new();
    assert_eq!(run_basic(&mut s, "PRINT"), vec![""]);
}

#[test]
fn let_then_print_reads_back_the_value() {
    let mut s = Session::new();
    let out = run_basic(&mut s, "LET A = 5\nPRINT A");
    assert_eq!(out, vec!["A = 5", "5"]);
}

#[test]
fn for_next_counts_and_reports_end() {
    let mut s = Session::new();
    let out = run_basic(&mut s, "FOR I = 1 TO 3\nNEXT");
    assert_eq!(out, vec!["FOR I = 1 TO 3", "NEXT I = 2", "NEXT I = 3", "END FOR I"]);
    assert_eq!(get_var(&s, "I"), Some("3".to_string()));
}

#[test]
fn gosub_returns_one_line_after_call_site() {
    let mut s = Session::new();
    let out = run_basic(
        &mut s,
        "10 GOSUB 100\n20 PRINT \"after\"\n100 PRINT \"sub\"\n110 RETURN",
    );
    // The subroutine runs, RETURN resumes one line after the GOSUB, the
    // program then falls into the subroutine again, and the final RETURN
    // with an empty stack is a no-op.
    assert_eq!(out, vec!["sub", "after", "sub"]);
}

#[test]
fn labeled_lines_execute_in_ascending_label_order() {
    let mut s = Session::new();
    let out = run_basic(&mut s, "20 PRINT \"b\"\n10 PRINT \"a\"");
    assert_eq!(out, vec!["a", "b"]);
}

#[test]
fn goto_jumps_to_label() {
    let mut s = Session::new();
    let out = run_basic(
        &mut s,
        "10 PRINT \"x\"\n20 GOTO 40\n30 PRINT \"skipped\"\n40 PRINT \"end\"",
    );
    assert_eq!(out, vec!["x", "end"]);
}

#[test]
fn goto_unknown_label_falls_through() {
    let mut s = Session::new();
    let out = run_basic(&mut s, "10 GOTO 99\n20 PRINT \"here\"");
    assert_eq!(out, vec!["here"]);
}

#[test]
fn if_then_runs_inline_command_when_true() {
    let mut s = Session::new();
    let out = run_basic(&mut s, "LET A = 1\nIF A = 1 THEN PRINT \"yes\"");
    assert_eq!(out, vec!["A = 1", "yes"]);
}

#[test]
fn if_then_jumps_to_numeric_target() {
    let mut s = Session::new();
    let out = run_basic(
        &mut s,
        "10 LET A = 1\n20 IF A = 1 THEN 40\n30 PRINT \"no\"\n40 PRINT \"yes\"",
    );
    assert_eq!(out, vec!["A = 1", "yes"]);
}

#[test]
fn if_condition_false_falls_through() {
    let mut s = Session::new();
    let out = run_basic(&mut s, "LET A = 1\nIF A = 2 THEN PRINT \"no\"\nPRINT \"end\"");
    assert_eq!(out, vec!["A = 1", "end"]);
}

#[test]
fn condition_without_equality_defaults_to_true() {
    let mut s = Session::new();
    let out = run_basic(&mut s, "IF X > 5 THEN PRINT \"t\"");
    assert_eq!(out, vec!["t"]);
}

#[test]
fn while_false_skips_to_past_wend() {
    let mut s = Session::new();
    let out = run_basic(
        &mut s,
        "LET X = 1\nWHILE X = 2\nPRINT \"in\"\nWEND\nPRINT \"out\"",
    );
    assert_eq!(out, vec!["X = 1", "out"]);
}

#[test]
fn wend_rechecks_condition_and_exits() {
    let mut s = Session::new();
    let out = run_basic(
        &mut s,
        "LET X = 1\nWHILE X = 1\nLET X = 2\nWEND\nPRINT \"done\"",
    );
    assert_eq!(out, vec!["X = 1", "X = 2", "done"]);
}

#[test]
fn unknown_command_is_reported_and_execution_continues() {
    let mut s = Session::new();
    let out = run_basic(&mut s, "FROB 1\nPRINT \"on\"");
    assert_eq!(out, vec!["Unknown command: FROB 1", "on"]);
}

#[test]
fn rem_and_quote_comments_are_dropped() {
    let mut s = Session::new();
    let out = run_basic(&mut s, "REM nothing\n' also nothing\nPRINT \"k\"");
    assert_eq!(out, vec!["k"]);
}

#[test]
fn cls_clears_earlier_transcript() {
    let mut s = Session::new();
    let out = run_basic(&mut s, "PRINT \"a\"\nCLS");
    assert_eq!(out, vec!["Screen cleared."]);
}

#[test]
fn color_in_range_reports_and_out_of_range_is_silent() {
    let mut s = Session::new();
    assert_eq!(run_basic(&mut s, "COLOR 200"), vec!["Color set to 200"]);
    let empty: Vec<String> = Vec::new();
    assert_eq!(run_basic(&mut s, "COLOR 300"), empty);
}

#[test]
fn repeat_runs_inline_command_n_times() {
    let mut s = Session::new();
    let out = run_basic(&mut s, "REPEAT 3 PRINT \"ha\"");
    assert_eq!(out, vec!["ha", "ha", "ha"]);
}

#[test]
fn make_binds_quoted_name_to_value() {
    let mut s = Session::new();
    let out = run_basic(&mut s, "MAKE \"X \"hello");
    assert_eq!(out, vec!["X = \"hello\""]);
    assert_eq!(get_var(&s, "X"), Some("hello".to_string()));
}

#[test]
fn pilot_markers_report_tagged_lines() {
    let mut s = Session::new();
    let out = run_basic(&mut s, "T:What is your name?\nM:abc\nU:use\nY:yay\nN:nay");
    assert_eq!(
        out,
        vec!["QUESTION: What is your name?", "MATCH: abc", "USE: use", "YES: yay", "NO: nay"]
    );
}

#[test]
fn pilot_jump_follows_numeric_label() {
    let mut s = Session::new();
    let out = run_basic(&mut s, "10 J:30\n20 PRINT \"skipped\"\n30 PRINT \"there\"");
    assert_eq!(out, vec!["there"]);
}

#[test]
fn backward_jump_stops_when_budget_is_spent() {
    let mut s = Session::new();
    let out = execute(&mut s, &chars("10 GOTO 10"), &chars("TW BASIC"), 5);
    assert_eq!(out.len(), 0);
    assert!(s.suspension.is_none());
}

#[test]
fn variables_persist_across_runs() {
    let mut s = Session::new();
    run_basic(&mut s, "LET A = 7");
    assert_eq!(run_basic(&mut s, "PRINT A"), vec!["7"]);
}

#[test]
fn beep_and_sound_echo() {
    let mut s = Session::new();
    let out = run_basic(&mut s, "BEEP\nSOUND 440");
    assert_eq!(out, vec!["BEEP!", "Sound: 440"]);
}

#[test]
fn question_mark_is_print_shorthand() {
    let mut s = Session::new();
    assert_eq!(run_basic(&mut s, "? \"hi\""), vec!["hi"]);
}

#[test]
fn duplicate_labels_keep_source_order() {
    let mut s = Session::new();
    let out = run_basic(&mut s, "10 PRINT \"a\"\n10 PRINT \"b\"");
    assert_eq!(out, vec!["a", "b"]);
}

#[test]
fn empty_source_produces_empty_transcript() {
    let mut s = Session::new();
    let out = run_basic(&mut s, "");
    assert_eq!(out.len(), 0);
}

#[test]
fn let_without_equals_is_silent() {
    let mut s = Session::new();
    let out = run_basic(&mut s, "LET A 5\nPRINT \"end\"");
    assert_eq!(out, vec!["end"]);
}
