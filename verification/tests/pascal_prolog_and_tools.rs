use timewarp::check::check_syntax;
use timewarp::session::{Session, execute};
use timewarp::text::{join_lines, replace_all};

fn chars(s: &str) -> Vec<char> {
    s.chars().collect()
}

fn text(v: &Vec<char>) -> String {
    v.iter().collect()
}

fn run(session: &mut Session, source: &str, dialect: &str) -> Vec<String> {
    let out = execute(session, &chars(source), &chars(dialect), 100_000);
    out.iter().map(text).collect()
}

#[test]
fn pascal_writeln_quoted_emits_contents() {
    let mut s = Session::new();
    assert_eq!(run(&mut s, "writeln('Hello');", "TW Pascal"), vec!["Hello"]);
}

#[test]
fn pascal_assignment_stores_and_writeln_reads_back() {
    let mut s = Session::new();
    let out = run(&mut s, "x := 5;\nwriteln(x);", "TW Pascal");
    assert_eq!(out, vec!["x := 5", "5"]);
}

#[test]
fn pascal_writeln_of_unknown_variable_reports_it() {
    let mut s = Session::new();
    assert_eq!(run(&mut s, "writeln(y);", "TW Pascal"), vec!["Undefined variable: y"]);
}

#[test]
fn pascal_write_without_quotes_is_silent() {
    let mut s = Session::new();
    let out = run(&mut s, "write(x)", "TW Pascal");
    assert_eq!(out.len(), 0);
}

#[test]
fn pascal_headers_are_reported_not_executed() {
    let mut s = Session::new();
    let out = run(
        &mut s,
        "program demo;\nbegin\nif x > 2 then\nfor i := 1 to 3 do\nend.",
        "TW Pascal",
    );
    assert_eq!(
        out,
        vec![
            "Program: demo",
            "Block begin",
            "IF statement: if x > 2 then",
            "FOR loop: for i := 1 to 3 do",
            "Block/Program end"
        ]
    );
}

#[test]
fn pascal_builtin_mentions_are_noticed() {
    let mut s = Session::new();
    let out = run(&mut s, "n := length(s);\nr := sqrt(n);", "TW Pascal");
    assert_eq!(out, vec!["String length function called", "Square root function called"]);
}

#[test]
fn pascal_readln_suspends_with_named_prompt() {
    let mut s = Session::new();
    let out = run(&mut s, "readln(name)", "TW Pascal");
    assert_eq!(out, vec!["Enter value for name: "]);
    let susp = s.suspension.as_ref().expect("suspended");
    assert_eq!(text(&susp.prompt), "Enter value for name:");
    assert_eq!(text(&susp.target), "name");
}

#[test]
fn pascal_generic_statement_is_echoed() {
    let mut s = Session::new();
    assert_eq!(run(&mut s, "mystery line", "TW Pascal"), vec!["Pascal statement: mystery line"]);
}

#[test]
fn prolog_fact_then_query_reports_one_clause() {
    let mut s = Session::new();
    let out = run(&mut s, "bird(tweety).\nbird.", "TW Prolog");
    assert_eq!(
        out,
        vec!["Fact: bird(tweety)", "Query: bird", "  Found 1 clause(s) for bird", "    bird(tweety)"]
    );
}

#[test]
fn prolog_query_for_unregistered_predicate_reports_unknown() {
    let mut s = Session::new();
    let out = run(&mut s, "fish.", "TW Prolog");
    assert_eq!(out, vec!["Query: fish", "  Unknown predicate: fish"]);
}

#[test]
fn prolog_declared_predicate_without_clauses_reports_none_found() {
    let mut s = Session::new();
    let out = run(&mut s, "bird(name)\nbird.", "TW Prolog");
    assert_eq!(
        out,
        vec!["Predicate declared: bird", "Query: bird", "  No clauses found for bird"]
    );
}

#[test]
fn prolog_rule_is_stored_under_its_head() {
    let mut s = Session::new();
    let out = run(&mut s, "flies(X) :- bird(X).\nflies.", "TW Prolog");
    assert_eq!(
        out,
        vec![
            "Rule: flies(X) :- bird(X)",
            "Query: flies",
            "  Found 1 clause(s) for flies",
            "    flies(X) :- bird(X)"
        ]
    );
}

#[test]
fn prolog_sections_and_domains_are_reported() {
    let mut s = Session::new();
    let out = run(&mut s, "domains\nage = integer\nclauses", "TW Prolog");
    assert_eq!(out, vec!["DOMAINS section:", "Domain: age = integer", "CLAUSES section:"]);
}

#[test]
fn prolog_database_is_not_persisted_across_runs() {
    let mut s = Session::new();
    run(&mut s, "bird(tweety).", "TW Prolog");
    let out = run(&mut s, "bird.", "TW Prolog");
    assert_eq!(out, vec!["Query: bird", "  Unknown predicate: bird"]);
}

#[test]
fn prolog_write_and_nl_mentions_echo() {
    let mut s = Session::new();
    assert_eq!(run(&mut s, "write(\"hi\"", "TW Prolog"), vec!["WRITE: hi"]);
    assert_eq!(run(&mut s, "nl", "TW Prolog"), vec!["NEWLINE"]);
}

#[test]
fn prolog_readln_suspends_with_sentinel_target() {
    let mut s = Session::new();
    let out = run(&mut s, "readln(X", "TW Prolog");
    assert_eq!(out, vec!["Enter value for readln: "]);
    let susp = s.suspension.as_ref().expect("suspended");
    assert_eq!(text(&susp.target), "READLN");
}

#[test]
fn prolog_arithmetic_and_comparison_echo() {
    let mut s = Session::new();
    let out = run(&mut s, "X + 1\nX > 2", "TW Prolog");
    assert_eq!(out, vec!["Arithmetic expression: X + 1", "Comparison: X > 2"]);
}

#[test]
fn basic_checker_flags_unnumbered_lines() {
    let r = check_syntax(&chars("PRINT \"ok\""), &chars("TW BASIC"));
    assert_eq!(
        text(&r),
        "Syntax errors found:\nLine 1: BASIC programs should start with line numbers"
    );
}

#[test]
fn basic_checker_passes_numbered_program() {
    let r = check_syntax(&chars("10 PRINT \"ok\""), &chars("TW BASIC"));
    assert_eq!(text(&r), "Syntax check passed!");
}

#[test]
fn pascal_checker_flags_writeln_without_parentheses() {
    let r = check_syntax(&chars("writeln x"), &chars("TW Pascal"));
    assert_eq!(
        text(&r),
        "Syntax errors found:\nLine 1: writeln statement missing parentheses"
    );
}

#[test]
fn prolog_checker_flags_missing_period() {
    let r = check_syntax(&chars("bird(tweety)"), &chars("TW Prolog"));
    assert_eq!(
        text(&r),
        "Syntax errors found:\nLine 1: Prolog statements should end with a period"
    );
}

#[test]
fn checker_for_unknown_dialect_reports_not_implemented() {
    let r = check_syntax(&chars("x"), &chars("TW Cobol"));
    assert_eq!(text(&r), "Syntax checking not implemented for TW Cobol");
}

#[test]
fn replace_all_rewrites_every_occurrence() {
    let r = replace_all(&chars("ababab"), &chars("ab"), &chars("c"));
    assert_eq!(text(&r), "ccc");
}

#[test]
fn replace_all_with_empty_pattern_leaves_text() {
    let r = replace_all(&chars("abc"), &chars(""), &chars("x"));
    assert_eq!(text(&r), "abc");
}

#[test]
fn join_lines_uses_newlines() {
    let lines: Vec<Vec<char>> = vec![chars("a"), chars("b"), chars("")];
    assert_eq!(text(&join_lines(&lines)), "a\nb\n");
}
