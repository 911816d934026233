//! The Pascal-family interpreter: a single pass over the source lines, each
//! line classified by a case-insensitive prefix and handled independently.
//! Headers and block markers are reported, not executed; assignments write
//! the variable store; `readln` raises an input suspension.

use vstd::prelude::*;
use crate::session::{DialectStep, Session, SuspModel, Suspension, susp_view};
use crate::text::{
    chars_of, concat_chars, contains_spec, contains_sub, copy_chars, ends_with, ends_with_char,
    find_char, find_char_at, find_char_rec, find_sub_at, find_sub_rec, lower_spec, quoted_between,
    quoted_between_exec, skip_chars, skip_spec, split_lines, split_lines_spec, starts_with,
    starts_with_spec, subrange_vec, to_lower, trim, trim_end_char_spec, trim_end_matches_char,
    trim_spec,
};

verus! {

/// The message for a variable with no binding.
pub open spec fn undefined_msg(name: Seq<char>) -> Seq<char> {
    "Undefined variable: "@ + name
}

/// A step that only emits `out`, leaving bindings alone.
pub open spec fn emit_step(vars: Map<Seq<char>, Seq<char>>, out: Seq<Seq<char>>) -> DialectStep {
    DialectStep { out, vars, susp: None }
}

/// What one Pascal line does to the session: the transcript lines it emits,
/// the new bindings, and a suspension if it requests input.
pub open spec fn pascal_line(vars: Map<Seq<char>, Seq<char>>, raw: Seq<char>) -> DialectStep {
    let line = trim_spec(raw);
    let low = lower_spec(line);
    if line.len() == 0 {
        emit_step(vars, Seq::empty())
    } else if starts_with_spec(low, "(*"@) || starts_with_spec(line, "{"@) {
        emit_step(vars, Seq::empty())
    } else if starts_with_spec(low, "writeln("@) {
        match find_char_rec(line, '\'') {
            Some(_) => match quoted_between(line, '\'') {
                Some(content) => emit_step(vars, seq![content]),
                None => emit_step(vars, Seq::empty()),
            },
            None => {
                if contains_spec(line, ");"@) {
                    let hi = if line.len() >= 10 {
                        line.len() - 2
                    } else {
                        8
                    };
                    let v = trim_spec(line.subrange(8, hi as int));
                    if vars.contains_key(v) {
                        emit_step(vars, seq![vars[v]])
                    } else {
                        emit_step(vars, seq![undefined_msg(v)])
                    }
                } else {
                    emit_step(vars, Seq::empty())
                }
            },
        }
    } else if starts_with_spec(low, "write("@) {
        match quoted_between(line, '\'') {
            Some(content) => emit_step(vars, seq![content]),
            None => emit_step(vars, Seq::empty()),
        }
    } else if starts_with_spec(low, "readln("@) {
        let inner = if line.len() > 7 {
            line.subrange(7, line.len() - 1)
        } else {
            Seq::empty()
        };
        let v = trim_spec(inner);
        let prompt = "Enter value for "@ + v + ":"@;
        DialectStep {
            out: seq![prompt + " "@],
            vars,
            susp: Some(SuspModel { prompt, target: v }),
        }
    } else if starts_with_spec(low, "if "@) {
        emit_step(vars, seq!["IF statement: "@ + line])
    } else if starts_with_spec(low, "for "@) {
        emit_step(vars, seq!["FOR loop: "@ + line])
    } else if starts_with_spec(low, "while "@) {
        emit_step(vars, seq!["WHILE loop: "@ + line])
    } else if starts_with_spec(low, "repeat"@) {
        emit_step(vars, seq!["REPEAT loop started"@])
    } else if low == "until"@ {
        emit_step(vars, seq!["REPEAT loop ended"@])
    } else if starts_with_spec(low, "case "@) {
        emit_step(vars, seq!["CASE statement: "@ + line])
    } else if starts_with_spec(low, "procedure "@) {
        let hi = match find_char_rec(line, '(') {
            Some(p) => if p < 10 {
                10
            } else {
                p
            },
            None => line.len() as int,
        };
        emit_step(vars, seq!["Procedure defined: "@ + trim_spec(line.subrange(10, hi))])
    } else if starts_with_spec(low, "function "@) {
        match find_char_rec(line, '(') {
            Some(p) => {
                let hi = if p < 9 {
                    9
                } else {
                    p
                };
                emit_step(vars, seq!["Function defined: "@ + trim_spec(line.subrange(9, hi))])
            },
            None => emit_step(vars, Seq::empty()),
        }
    } else if starts_with_spec(low, "var "@) {
        emit_step(vars, seq!["Variable declaration: "@ + line.skip(4)])
    } else if starts_with_spec(low, "const "@) {
        emit_step(vars, seq!["Constant declaration: "@ + line.skip(6)])
    } else if starts_with_spec(low, "type "@) {
        emit_step(vars, seq!["Type declaration: "@ + line.skip(5)])
    } else if starts_with_spec(low, "program "@) {
        match find_char_rec(line, ';') {
            Some(p) => {
                let hi = if p < 8 {
                    8
                } else {
                    p
                };
                emit_step(vars, seq!["Program: "@ + trim_spec(line.subrange(8, hi))])
            },
            None => emit_step(vars, Seq::empty()),
        }
    } else if starts_with_spec(low, "begin"@) {
        emit_step(vars, seq!["Block begin"@])
    } else if low == "end."@ || low == "end;"@ {
        emit_step(vars, seq!["Block/Program end"@])
    } else if contains_spec(low, "length("@) {
        emit_step(vars, seq!["String length function called"@])
    } else if contains_spec(low, "pos("@) {
        emit_step(vars, seq!["String position function called"@])
    } else if contains_spec(low, "copy("@) {
        emit_step(vars, seq!["String copy function called"@])
    } else if contains_spec(low, "sqrt("@) {
        emit_step(vars, seq!["Square root function called"@])
    } else if contains_spec(low, "sin("@) || contains_spec(low, "cos("@) || contains_spec(
        low,
        "arctan("@,
    ) {
        emit_step(vars, seq!["Trigonometric function called"@])
    } else if contains_spec(line, ":="@) {
        match find_sub_rec(line, ":="@) {
            Some(i) => {
                if find_sub_rec(line.skip(i + 2), ":="@) is None {
                    let v = trim_spec(line.take(i));
                    let value = trim_end_char_spec(trim_spec(line.skip(i + 2)), ';');
                    DialectStep {
                        out: seq![v + " := "@ + value],
                        vars: vars.insert(v, value),
                        susp: None,
                    }
                } else {
                    emit_step(vars, Seq::empty())
                }
            },
            None => emit_step(vars, Seq::empty()),
        }
    } else if !ends_with_char(line, ';') && !ends_with_char(line, '.') {
        emit_step(vars, seq!["Pascal statement: "@ + line])
    } else {
        emit_step(vars, Seq::empty())
    }
}

/// The Pascal pass over a line list: line effects folded in order, stopping
/// at the first suspension.
pub open spec fn pascal_run(lines: Seq<Seq<char>>, vars: Map<Seq<char>, Seq<char>>) -> DialectStep
    decreases lines.len(),
{
    if lines.len() == 0 {
        DialectStep { out: Seq::empty(), vars, susp: None }
    } else {
        let e = pascal_line(vars, lines[0]);
        if e.susp is Some {
            e
        } else {
            let r = pascal_run(lines.drop_first(), e.vars);
            DialectStep { out: e.out + r.out, vars: r.vars, susp: r.susp }
        }
    }
}

/// Runs one Pascal line against the session, appending to `out`.
fn exec_line(session: &mut Session, raw: &Vec<char>, out: &mut Vec<Vec<char>>) -> (susp: Option<
    Suspension,
>)
    ensures
        ({
            let e = pascal_line(old(session)@.vars, raw@);
            &&& final(out).deep_view() == old(out).deep_view() + e.out
            &&& final(session)@.vars == e.vars
            &&& susp_view(susp) == e.susp
            &&& final(session)@.turtle == old(session)@.turtle
            &&& final(session)@.suspension == old(session)@.suspension
        }),
{
    let ghost e = pascal_line(old(session)@.vars, raw@);
    proof {
        reveal_strlit("(*");
        reveal_strlit("{");
        reveal_strlit("writeln(");
        reveal_strlit("write(");
        reveal_strlit("readln(");
        reveal_strlit(");");
        reveal_strlit("procedure ");
        reveal_strlit("function ");
        reveal_strlit("program ");
        reveal_strlit("var ");
        reveal_strlit("const ");
        reveal_strlit("type ");
        reveal_strlit(":=");
    }
    let line = trim(raw);
    let low = to_lower(&line);
    let mut emitted: Vec<Vec<char>> = Vec::new();
    let mut susp: Option<Suspension> = None;
    if line.len() == 0 {
    } else if starts_with(&low, &chars_of("(*")) || starts_with(&line, &chars_of("{")) {
    } else if starts_with(&low, &chars_of("writeln(")) {
        match find_char_at(&line, '\'') {
            Some(_) => {
                match quoted_between_exec(&line, '\'') {
                    Some(content) => emitted.push(content),
                    None => (),
                }
            },
            None => {
                if contains_sub(&line, &chars_of(");")) {
                    let hi = if line.len() >= 10 {
                        line.len() - 2
                    } else {
                        8
                    };
                    let v = trim(&subrange_vec(&line, 8, hi));
                    proof {
                        assert(v.deep_view() =~= v@);
                    }
                    match session.vars.get(&v) {
                        Some(value) => {
                            proof {
                                assert(value.deep_view() =~= value@);
                            }
                            let value = copy_chars(value);
                            emitted.push(value);
                        },
                        None => {
                            emitted.push(concat_chars(&chars_of("Undefined variable: "), &v));
                        },
                    }
                }
            },
        }
    } else if starts_with(&low, &chars_of("write(")) {
        match quoted_between_exec(&line, '\'') {
            Some(content) => emitted.push(content),
            None => (),
        }
    } else if starts_with(&low, &chars_of("readln(")) {
        let inner = if line.len() > 7 {
            subrange_vec(&line, 7, line.len() - 1)
        } else {
            Vec::new()
        };
        let v = trim(&inner);
        let p0 = chars_of("Enter value for ");
        let p1 = concat_chars(&p0, &v);
        let prompt = concat_chars(&p1, &chars_of(":"));
        emitted.push(concat_chars(&prompt, &chars_of(" ")));
        susp = Some(Suspension { prompt, target: v });
    } else if starts_with(&low, &chars_of("if ")) {
        emitted.push(concat_chars(&chars_of("IF statement: "), &line));
    } else if starts_with(&low, &chars_of("for ")) {
        emitted.push(concat_chars(&chars_of("FOR loop: "), &line));
    } else if starts_with(&low, &chars_of("while ")) {
        emitted.push(concat_chars(&chars_of("WHILE loop: "), &line));
    } else if starts_with(&low, &chars_of("repeat")) {
        emitted.push(chars_of("REPEAT loop started"));
    } else if eq_low(&low, "until") {
        emitted.push(chars_of("REPEAT loop ended"));
    } else if starts_with(&low, &chars_of("case ")) {
        emitted.push(concat_chars(&chars_of("CASE statement: "), &line));
    } else if starts_with(&low, &chars_of("procedure ")) {
        let hi = match find_char_at(&line, '(') {
            Some(p) => if p < 10 {
                10
            } else {
                p
            },
            None => line.len(),
        };
        proof {
            crate::text::lemma_find_char_rec_props(line@, '(');
        }
        let name = trim(&subrange_vec(&line, 10, hi));
        emitted.push(concat_chars(&chars_of("Procedure defined: "), &name));
    } else if starts_with(&low, &chars_of("function ")) {
        match find_char_at(&line, '(') {
            Some(p) => {
                let hi = if p < 9 {
                    9
                } else {
                    p
                };
                proof {
                    crate::text::lemma_find_char_rec_props(line@, '(');
                }
                let name = trim(&subrange_vec(&line, 9, hi));
                emitted.push(concat_chars(&chars_of("Function defined: "), &name));
            },
            None => (),
        }
    } else if starts_with(&low, &chars_of("var ")) {
        emitted.push(concat_chars(&chars_of("Variable declaration: "), &skip_chars(&line, 4)));
    } else if starts_with(&low, &chars_of("const ")) {
        emitted.push(concat_chars(&chars_of("Constant declaration: "), &skip_chars(&line, 6)));
    } else if starts_with(&low, &chars_of("type ")) {
        emitted.push(concat_chars(&chars_of("Type declaration: "), &skip_chars(&line, 5)));
    } else if starts_with(&low, &chars_of("program ")) {
        match find_char_at(&line, ';') {
            Some(p) => {
                let hi = if p < 8 {
                    8
                } else {
                    p
                };
                proof {
                    crate::text::lemma_find_char_rec_props(line@, ';');
                }
                let name = trim(&subrange_vec(&line, 8, hi));
                emitted.push(concat_chars(&chars_of("Program: "), &name));
            },
            None => (),
        }
    } else if starts_with(&low, &chars_of("begin")) {
        emitted.push(chars_of("Block begin"));
    } else if eq_low(&low, "end.") || eq_low(&low, "end;") {
        emitted.push(chars_of("Block/Program end"));
    } else if contains_sub(&low, &chars_of("length(")) {
        emitted.push(chars_of("String length function called"));
    } else if contains_sub(&low, &chars_of("pos(")) {
        emitted.push(chars_of("String position function called"));
    } else if contains_sub(&low, &chars_of("copy(")) {
        emitted.push(chars_of("String copy function called"));
    } else if contains_sub(&low, &chars_of("sqrt(")) {
        emitted.push(chars_of("Square root function called"));
    } else if contains_sub(&low, &chars_of("sin(")) || contains_sub(&low, &chars_of("cos("))
        || contains_sub(&low, &chars_of("arctan(")) {
        emitted.push(chars_of("Trigonometric function called"));
    } else if contains_sub(&line, &chars_of(":=")) {
        match find_sub_at(&line, &chars_of(":=")) {
            Some(i) => {
                proof {
                    crate::text::lemma_find_sub_rec_props(line@, ":="@);
                }
                let rest = skip_chars(&line, i + 2);
                proof {
                    assert(rest@ =~= line@.skip(i + 2));
                }
                match find_sub_at(&rest, &chars_of(":=")) {
                    Some(_) => (),
                    None => {
                        let v = trim(&subrange_vec(&line, 0, i));
                        proof {
                            assert(line@.subrange(0, i as int) =~= line@.take(i as int));
                        }
                        let value = trim_end_matches_char(&trim(&rest), ';');
                        let msg0 = copy_chars(&v);
                        let msg1 = concat_chars(&msg0, &chars_of(" := "));
                        let msg = concat_chars(&msg1, &value);
                        emitted.push(msg);
                        proof {
                            assert(v.deep_view() =~= v@);
                            assert(value.deep_view() =~= value@);
                        }
                        session.vars.set(v, value);
                    },
                }
            },
            None => (),
        }
    } else if !ends_with(&line, ';') && !ends_with(&line, '.') {
        emitted.push(concat_chars(&chars_of("Pascal statement: "), &line));
    } else {
    }
    proof {
        assert(emitted.deep_view() =~~= e.out);
        assert(final(session)@.vars =~= e.vars);
        assert(susp_view(susp) =~~= e.susp);
    }
    let mut k: usize = 0;
    while k < emitted.len()
        invariant
            k <= emitted@.len(),
            out.deep_view() == old(out).deep_view() + emitted.deep_view().take(k as int),
        decreases emitted.len() - k,
    {
        let l = copy_chars(&emitted[k]);
        proof {
            assert(emitted@[k as int].deep_view() =~= emitted@[k as int]@);
            assert(l@ == emitted.deep_view()[k as int]);
            assert(old(out).deep_view() + emitted.deep_view().take(k + 1 as int) =~= (old(
                out,
            ).deep_view() + emitted.deep_view().take(k as int)).push(l@));
        }
        crate::text::push_line(out, l);
        k = k + 1;
    }
    proof {
        assert(emitted.deep_view().take(emitted@.len() as int) =~= emitted.deep_view());
    }
    susp
}

fn eq_low(low: &Vec<char>, lit: &str) -> (r: bool)
    ensures
        r == (low@ == lit@),
{
    crate::text::eq_chars(low, &chars_of(lit))
}

/// Runs Pascal source against the session: every line is classified and
/// reported in order; an input request stops the pass with a suspension.
pub fn execute_pascal(session: &mut Session, source: &Vec<char>) -> (out: Vec<Vec<char>>)
    requires
        old(session)@.suspension is None,
    ensures
        ({
            let r = pascal_run(split_lines_spec(source@), old(session)@.vars);
            &&& out.deep_view() == r.out
            &&& final(session)@.vars == r.vars
            &&& final(session)@.suspension == r.susp
            &&& final(session)@.turtle == old(session)@.turtle
        }),
{
    let lines = split_lines(source);
    let ghost all = split_lines_spec(source@);
    let mut out: Vec<Vec<char>> = Vec::new();
    let n = lines.len();
    let mut i: usize = 0;
    proof {
        assert(all.skip(0) =~= all);
        assert(out.deep_view() =~= Seq::<Seq<char>>::empty());
    }
    while i < n
        invariant
            n == lines@.len(),
            i <= n,
            all == split_lines_spec(source@),
            lines.deep_view() == all,
            session@.suspension is None,
            session@.turtle == old(session)@.turtle,
            ({
                let r0 = pascal_run(all, old(session)@.vars);
                let r = pascal_run(all.skip(i as int), session@.vars);
                &&& r0.out == out.deep_view() + r.out
                &&& r0.vars == r.vars
                &&& r0.susp == r.susp
            }),
        decreases n - i,
    {
        let ghost rest = all.skip(i as int);
        proof {
            assert(rest.len() > 0);
            assert(rest[0] == lines.deep_view()[i as int]);
            assert(lines@[i as int].deep_view() =~= lines@[i as int]@);
            assert(rest.drop_first() =~= all.skip(i + 1));
        }
        let susp = exec_line(session, &lines[i], &mut out);
        match susp {
            Some(s) => {
                session.suspension = Some(s);
                proof {
                    let e = pascal_line(old(session)@.vars, rest[0]);
                }
                return out;
            },
            None => (),
        }
        i = i + 1;
    }
    proof {
        assert(all.skip(n as int) =~= Seq::<Seq<char>>::empty());
    }
    out
}

} // verus!
