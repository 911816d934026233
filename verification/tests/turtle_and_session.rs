use timewarp::session::{Session, execute, resume};
use timewarp::turtle::Segment;

fn chars(s: &str) -> Vec<char> {
    s.chars().collect()
}

fn text(v: &Vec<char>) -> String {
    v.iter().collect()
}

fn run_basic(session: &mut Session, source: &str) -> Vec<String> {
    let out = execute(session, &chars(source), &chars("TW BASIC"), 100_000);
    out.iter().map(text).collect()
}

#[test]
fn forward_with_pen_down_draws_one_segment_east() {
    let mut s = Session::new();
    let out = run_basic(&mut s, "FORWARD 100");
    assert_eq!(out, vec!["Turtle forward 100"]);
    assert_eq!(s.turtle.segments.len(), 1);
    assert_eq!(s.turtle.segments[0], Segment { x1: 200, y1: 200, x2: 300, y2: 200 });
    assert_eq!((s.turtle.x, s.turtle.y), (300, 200));
}

#[test]
fn right_turn_then_forward_moves_along_second_axis() {
    let mut s = Session::new();
    let out = run_basic(&mut s, "RIGHT 90\nFORWARD 100");
    assert_eq!(out, vec!["Turtle right 90", "Turtle forward 100"]);
    assert_eq!(s.turtle.segments[0], Segment { x1: 200, y1: 200, x2: 200, y2: 300 });
    assert_eq!((s.turtle.x, s.turtle.y, s.turtle.heading), (200, 300, 90));
}

#[test]
fn backward_moves_against_the_heading() {
    let mut s = Session::new();
    let out = run_basic(&mut s, "BACKWARD 50");
    assert_eq!(out, vec!["Turtle backward 50"]);
    assert_eq!((s.turtle.x, s.turtle.y), (150, 200));
}

#[test]
fn pen_up_suppresses_segments() {
    let mut s = Session::new();
    run_basic(&mut s, "PENUP\nFORWARD 100");
    assert_eq!(s.turtle.segments.len(), 0);
    assert_eq!(s.turtle.x, 300);
    run_basic(&mut s, "PENDOWN\nFORWARD 10");
    assert_eq!(s.turtle.segments.len(), 1);
}

#[test]
fn home_resets_pose_but_keeps_segment_log() {
    let mut s = Session::new();
    run_basic(&mut s, "FORWARD 100\nRIGHT 45\nHOME");
    assert_eq!(s.turtle.segments.len(), 1);
    assert_eq!((s.turtle.x, s.turtle.y, s.turtle.heading), (200, 200, 0));
}

#[test]
fn clearscreen_resets_pose_and_empties_log() {
    let mut s = Session::new();
    let out = run_basic(&mut s, "FORWARD 100\nCS");
    assert_eq!(out, vec!["Turtle forward 100", "Screen cleared"]);
    assert_eq!(s.turtle.segments.len(), 0);
    assert_eq!((s.turtle.x, s.turtle.y, s.turtle.heading), (200, 200, 0));
}

#[test]
fn left_turn_decreases_heading() {
    let mut s = Session::new();
    run_basic(&mut s, "LEFT 30");
    assert_eq!(s.turtle.heading, -30);
}

#[test]
fn unparsable_distance_is_silently_skipped() {
    let mut s = Session::new();
    let out = run_basic(&mut s, "FORWARD xx");
    assert_eq!(out.len(), 0);
    assert_eq!((s.turtle.x, s.turtle.y), (200, 200));
}

#[test]
fn setpencolor_only_echoes() {
    let mut s = Session::new();
    let out = run_basic(&mut s, "SETPC 3");
    assert_eq!(out, vec!["Pen color set to 3"]);
}

#[test]
fn input_suspends_with_prompt_as_last_line() {
    let mut s = Session::new();
    let out = run_basic(&mut s, "INPUT \"Name\" N\nPRINT N");
    assert_eq!(out, vec!["Name "]);
    let susp = s.suspension.as_ref().expect("suspended");
    assert_eq!(text(&susp.prompt), "Name");
    assert_eq!(text(&susp.target), "N");
}

#[test]
fn resume_binds_value_and_reruns_from_start() {
    let mut s = Session::new();
    let source = "INPUT \"Name\" N\nPRINT N";
    run_basic(&mut s, source);
    let out = resume(&mut s, &chars(source), &chars("TW BASIC"), &chars("Ada"), 100_000)
        .expect("resumed");
    // The re-run starts from the top and hits INPUT again: the documented
    // re-run-from-start simplification.
    assert_eq!(out.iter().map(text).collect::<Vec<_>>(), vec!["Name "]);
    assert_eq!(s.vars.get(&chars("N")).map(text), Some("Ada".to_string()));
    assert!(s.suspension.is_some());
}

#[test]
fn resume_with_empty_value_is_a_no_op() {
    let mut s = Session::new();
    let source = "INPUT \"Name\" N";
    run_basic(&mut s, source);
    let r = resume(&mut s, &chars(source), &chars("TW BASIC"), &chars(""), 100_000);
    assert!(r.is_none());
    assert!(s.suspension.is_some());
    assert!(s.vars.get(&chars("N")).is_none());
}

#[test]
fn resume_without_suspension_is_a_no_op() {
    let mut s = Session::new();
    let r = resume(&mut s, &chars("PRINT \"x\""), &chars("TW BASIC"), &chars("v"), 100_000);
    assert!(r.is_none());
}

#[test]
fn input_without_quoted_prompt_uses_default() {
    let mut s = Session::new();
    let out = run_basic(&mut s, "INPUT N");
    assert_eq!(out, vec!["Input: "]);
    let susp = s.suspension.as_ref().expect("suspended");
    assert_eq!(text(&susp.prompt), "Input:");
    assert_eq!(text(&susp.target), "N");
}

#[test]
fn accept_marker_suspends_like_input() {
    let mut s = Session::new();
    let out = run_basic(&mut s, "A:NAME");
    assert_eq!(out, vec!["ACCEPT: NAME", "(Waiting for user input...) "]);
    let susp = s.suspension.as_ref().expect("suspended");
    assert_eq!(text(&susp.target), "NAME");
}

#[test]
fn unsupported_dialect_reports_and_mutates_nothing() {
    let mut s = Session::new();
    run_basic(&mut s, "LET A = 1\nFORWARD 10");
    let segs_before = s.turtle.segments.len();
    let out = execute(&mut s, &chars("PRINT \"x\""), &chars("TW Cobol"), 100_000);
    assert_eq!(
        out.iter().map(text).collect::<Vec<_>>(),
        vec!["Language 'TW Cobol' not yet supported for execution"]
    );
    assert_eq!(s.turtle.segments.len(), segs_before);
    assert_eq!((s.turtle.x, s.turtle.y), (210, 200));
    assert_eq!(s.vars.get(&chars("A")).map(text), Some("1".to_string()));
    assert!(s.suspension.is_none());
}
