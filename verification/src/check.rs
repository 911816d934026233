//! The advisory static checkers: one shape scan per dialect, producing a
//! list of line-numbered warnings. A checker never blocks execution.

use vstd::prelude::*;
use crate::text::{
    chars_of, concat_chars, contains_spec, contains_sub, dec_nat, ends_with, ends_with_char,
    eq_chars, is_digit_char, join_lines, join_lines_spec, lower_spec, push_line, split_lines,
    split_lines_spec, starts_with, starts_with_spec, to_lower, to_upper, trim, trim_spec,
    u64_to_chars, upper_spec,
};

verus! {

/// A letter or digit, as the shape checks accept them.
pub open spec fn is_alnum_char(c: char) -> bool {
    (48 <= c as u32 && c as u32 <= 57) || (65 <= c as u32 && c as u32 <= 90) || (97 <= c as u32
        && c as u32 <= 122)
}

fn is_alnum(c: char) -> (r: bool)
    ensures
        r == is_alnum_char(c),
{
    let u = c as u32;
    (48 <= u && u <= 57) || (65 <= u && u <= 90) || (97 <= u && u <= 122)
}

/// A character a plain `PRINT` statement may carry.
pub open spec fn print_ok_char(c: char) -> bool {
    is_alnum_char(c) || crate::text::is_ws_char(c) || c == '=' || c == '"'
}

/// The `Line <n>: ` prefix of a warning, for source line `idx` (zero
/// based).
pub open spec fn line_tag(idx: int) -> Seq<char> {
    "Line "@ + dec_nat(idx + 1) + ": "@
}

/// The warnings one BASIC source line earns: no leading label, or a
/// malformed `PRINT`.
pub open spec fn basic_line_warnings(raw: Seq<char>, idx: int) -> Seq<Seq<char>> {
    let line = trim_spec(raw);
    let u = upper_spec(line);
    if line.len() == 0 {
        Seq::empty()
    } else {
        (if !is_digit_char(line[0]) && !starts_with_spec(u, "REM"@) {
            seq![line_tag(idx) + "BASIC programs should start with line numbers"@]
        } else {
            Seq::empty()
        }) + (if contains_spec(u, "PRINT"@) && !contains_spec(line, "\""@) && !(forall|m: int|
            0 <= m < line.len() ==> print_ok_char(line[m])) {
            seq![line_tag(idx) + "PRINT statement syntax error"@]
        } else {
            Seq::empty()
        })
    }
}

pub open spec fn basic_warnings(raws: Seq<Seq<char>>, idx: int) -> Seq<Seq<char>>
    decreases raws.len(),
{
    if raws.len() == 0 {
        Seq::empty()
    } else {
        basic_line_warnings(raws[0], idx) + basic_warnings(raws.drop_first(), idx + 1)
    }
}

/// The warnings one Pascal source line earns: `writeln` without
/// parentheses.
pub open spec fn pascal_line_warnings(raw: Seq<char>, idx: int) -> Seq<Seq<char>> {
    let line = trim_spec(raw);
    let low = lower_spec(line);
    if line.len() == 0 {
        Seq::empty()
    } else if starts_with_spec(low, "writeln"@) && (!contains_spec(line, "("@) || !contains_spec(
        line,
        ")"@,
    )) {
        seq![line_tag(idx) + "writeln statement missing parentheses"@]
    } else {
        Seq::empty()
    }
}

pub open spec fn pascal_warnings(raws: Seq<Seq<char>>, idx: int) -> Seq<Seq<char>>
    decreases raws.len(),
{
    if raws.len() == 0 {
        Seq::empty()
    } else {
        pascal_line_warnings(raws[0], idx) + pascal_warnings(raws.drop_first(), idx + 1)
    }
}

/// The warnings one Prolog source line earns: a rule or statement missing
/// its final period.
pub open spec fn prolog_line_warnings(raw: Seq<char>, idx: int) -> Seq<Seq<char>> {
    let line = trim_spec(raw);
    let low = lower_spec(line);
    if line.len() == 0 || line[0] == '%' {
        Seq::empty()
    } else if contains_spec(line, ":-"@) {
        if !ends_with_char(line, '.') {
            seq![line_tag(idx) + "Rule must end with a period"@]
        } else {
            Seq::empty()
        }
    } else if ends_with_char(line, '.') && contains_spec(line, "("@) {
        Seq::empty()
    } else if ends_with_char(line, '.') && !contains_spec(line, "("@) && !contains_spec(
        line,
        ":-"@,
    ) {
        Seq::empty()
    } else if !ends_with_char(line, '.') && !starts_with_spec(low, "domains"@)
        && !starts_with_spec(low, "predicates"@) && !starts_with_spec(low, "goal"@)
        && !starts_with_spec(low, "clauses"@) {
        seq![line_tag(idx) + "Prolog statements should end with a period"@]
    } else {
        Seq::empty()
    }
}

pub open spec fn prolog_warnings(raws: Seq<Seq<char>>, idx: int) -> Seq<Seq<char>>
    decreases raws.len(),
{
    if raws.len() == 0 {
        Seq::empty()
    } else {
        prolog_line_warnings(raws[0], idx) + prolog_warnings(raws.drop_first(), idx + 1)
    }
}

/// The checker's report: a pass notice, or the warnings under a heading.
pub open spec fn check_report(ws: Seq<Seq<char>>) -> Seq<char> {
    if ws.len() == 0 {
        "Syntax check passed!"@
    } else {
        "Syntax errors found:\n"@ + join_lines_spec(ws)
    }
}

/// Which checker runs for a dialect name, and its report; an unknown name
/// reports that checking is not implemented.
pub open spec fn check_spec(source: Seq<char>, dialect: Seq<char>) -> Seq<char> {
    if dialect == "TW BASIC"@ {
        check_report(basic_warnings(split_lines_spec(source), 0))
    } else if dialect == "TW Pascal"@ {
        check_report(pascal_warnings(split_lines_spec(source), 0))
    } else if dialect == "TW Prolog"@ {
        check_report(prolog_warnings(split_lines_spec(source), 0))
    } else {
        "Syntax checking not implemented for "@ + dialect
    }
}

fn line_tag_exec(idx: usize) -> (r: Vec<char>)
    requires
        idx < 0xffff_ffff_ffff_ffff,
    ensures
        r@ == line_tag(idx as int),
{
    let t0 = chars_of("Line ");
    let t1 = concat_chars(&t0, &u64_to_chars((idx as u64) + 1));
    concat_chars(&t1, &chars_of(": "))
}

fn basic_line_warnings_exec(raw: &Vec<char>, idx: usize, out: &mut Vec<Vec<char>>)
    requires
        idx < 0xffff_ffff_ffff_ffff,
    ensures
        final(out).deep_view() == old(out).deep_view() + basic_line_warnings(raw@, idx as int),
{
    let ghost w = basic_line_warnings(raw@, idx as int);
    proof {
        reveal_strlit("REM");
        reveal_strlit("PRINT");
        reveal_strlit("\"");
    }
    let line = trim(raw);
    let u = to_upper(&line);
    if line.len() == 0 {
        proof {
            assert(old(out).deep_view() + w =~= old(out).deep_view());
        }
        return ;
    }
    let c0 = line[0];
    let cu = c0 as u32;
    if !(48 <= cu && cu <= 57) && !starts_with(&u, &chars_of("REM")) {
        let msg = concat_chars(
            &line_tag_exec(idx),
            &chars_of("BASIC programs should start with line numbers"),
        );
        push_line(out, msg);
    }
    if contains_sub(&u, &chars_of("PRINT")) && !contains_sub(&line, &chars_of("\"")) {
        let mut all_ok = true;
        let n = line.len();
        let mut m: usize = 0;
        while m < n
            invariant
                n == line@.len(),
                m <= n,
                all_ok == (forall|j: int| 0 <= j < m ==> print_ok_char(line@[j])),
            decreases n - m,
        {
            let c = line[m];
            if !(is_alnum(c) || crate::text::is_ws(c) || c == '=' || c == '"') {
                all_ok = false;
            }
            m = m + 1;
        }
        if !all_ok {
            let msg = concat_chars(&line_tag_exec(idx), &chars_of("PRINT statement syntax error"));
            push_line(out, msg);
        }
    }
    proof {
        assert(final(out).deep_view() =~~= old(out).deep_view() + w);
    }
}

fn pascal_line_warnings_exec(raw: &Vec<char>, idx: usize, out: &mut Vec<Vec<char>>)
    requires
        idx < 0xffff_ffff_ffff_ffff,
    ensures
        final(out).deep_view() == old(out).deep_view() + pascal_line_warnings(raw@, idx as int),
{
    let ghost w = pascal_line_warnings(raw@, idx as int);
    proof {
        reveal_strlit("writeln");
        reveal_strlit("(");
        reveal_strlit(")");
    }
    let line = trim(raw);
    let low = to_lower(&line);
    if line.len() > 0 && starts_with(&low, &chars_of("writeln")) && (!contains_sub(
        &line,
        &chars_of("("),
    ) || !contains_sub(&line, &chars_of(")"))) {
        let msg = concat_chars(
            &line_tag_exec(idx),
            &chars_of("writeln statement missing parentheses"),
        );
        push_line(out, msg);
    }
    proof {
        assert(final(out).deep_view() =~~= old(out).deep_view() + w);
    }
}

fn prolog_line_warnings_exec(raw: &Vec<char>, idx: usize, out: &mut Vec<Vec<char>>)
    requires
        idx < 0xffff_ffff_ffff_ffff,
    ensures
        final(out).deep_view() == old(out).deep_view() + prolog_line_warnings(raw@, idx as int),
{
    let ghost w = prolog_line_warnings(raw@, idx as int);
    proof {
        reveal_strlit(":-");
        reveal_strlit("(");
    }
    let line = trim(raw);
    let low = to_lower(&line);
    if line.len() == 0 || line[0] == '%' {
    } else if contains_sub(&line, &chars_of(":-")) {
        if !ends_with(&line, '.') {
            let msg = concat_chars(&line_tag_exec(idx), &chars_of("Rule must end with a period"));
            push_line(out, msg);
        }
    } else if ends_with(&line, '.') && contains_sub(&line, &chars_of("(")) {
    } else if ends_with(&line, '.') && !contains_sub(&line, &chars_of("(")) && !contains_sub(
        &line,
        &chars_of(":-"),
    ) {
    } else if !ends_with(&line, '.') && !starts_with(&low, &chars_of("domains")) && !starts_with(
        &low,
        &chars_of("predicates"),
    ) && !starts_with(&low, &chars_of("goal")) && !starts_with(&low, &chars_of("clauses")) {
        let msg = concat_chars(
            &line_tag_exec(idx),
            &chars_of("Prolog statements should end with a period"),
        );
        push_line(out, msg);
    }
    proof {
        assert(final(out).deep_view() =~~= old(out).deep_view() + w);
    }
}

/// The advisory checker: scans the source for shape violations of the
/// named dialect and returns the report text.
pub fn check_syntax(source: &Vec<char>, dialect: &Vec<char>) -> (r: Vec<char>)
    ensures
        r@ == check_spec(source@, dialect@),
{
    if eq_chars(dialect, &chars_of("TW BASIC")) {
        let ws = basic_warnings_exec(source);
        report_exec(ws)
    } else if eq_chars(dialect, &chars_of("TW Pascal")) {
        let ws = pascal_warnings_exec(source);
        report_exec(ws)
    } else if eq_chars(dialect, &chars_of("TW Prolog")) {
        let ws = prolog_warnings_exec(source);
        report_exec(ws)
    } else {
        concat_chars(&chars_of("Syntax checking not implemented for "), dialect)
    }
}

fn report_exec(ws: Vec<Vec<char>>) -> (r: Vec<char>)
    ensures
        r@ == check_report(ws.deep_view()),
{
    if ws.len() == 0 {
        proof {
            assert(ws.deep_view() =~= Seq::<Seq<char>>::empty());
        }
        chars_of("Syntax check passed!")
    } else {
        concat_chars(&chars_of("Syntax errors found:\n"), &join_lines(&ws))
    }
}

/// The BASIC shape warnings for a whole source text.
pub fn basic_warnings_exec(source: &Vec<char>) -> (r: Vec<Vec<char>>)
    ensures
        r.deep_view() == basic_warnings(split_lines_spec(source@), 0),
{
    let raws = split_lines(source);
    let ghost all = split_lines_spec(source@);
    let mut out: Vec<Vec<char>> = Vec::new();
    let n = raws.len();
    let mut i: usize = 0;
    proof {
        assert(all.skip(0) =~= all);
        assert(out.deep_view() =~= Seq::<Seq<char>>::empty());
        assert(basic_warnings(all, 0) =~= out.deep_view() + basic_warnings(all.skip(0), 0));
    }
    while i < n
        invariant
            n == raws@.len(),
            i <= n,
            all == split_lines_spec(source@),
            raws.deep_view() == all,
            basic_warnings(all, 0) == out.deep_view() + basic_warnings(all.skip(i as int), i as int),
        decreases n - i,
    {
        let ghost rest = all.skip(i as int);
        proof {
            assert(rest[0] == raws.deep_view()[i as int]);
            assert(raws@[i as int].deep_view() =~= raws@[i as int]@);
            assert(rest.drop_first() =~= all.skip(i + 1));
        }
        proof {
            assert(i < 0xffff_ffff_ffff_ffff);
        }
        basic_line_warnings_exec(&raws[i], i, &mut out);
        proof {
            assert(out.deep_view() + basic_warnings(all.skip(i + 1), i + 1 as int)
                =~= basic_warnings(all, 0));
        }
        i = i + 1;
    }
    proof {
        assert(all.skip(n as int) =~= Seq::<Seq<char>>::empty());
        assert(out.deep_view() + basic_warnings(all.skip(n as int), n as int) =~= out.deep_view());
    }
    out
}

/// The Pascal shape warnings for a whole source text.
pub fn pascal_warnings_exec(source: &Vec<char>) -> (r: Vec<Vec<char>>)
    ensures
        r.deep_view() == pascal_warnings(split_lines_spec(source@), 0),
{
    let raws = split_lines(source);
    let ghost all = split_lines_spec(source@);
    let mut out: Vec<Vec<char>> = Vec::new();
    let n = raws.len();
    let mut i: usize = 0;
    proof {
        assert(all.skip(0) =~= all);
        assert(out.deep_view() =~= Seq::<Seq<char>>::empty());
        assert(pascal_warnings(all, 0) =~= out.deep_view() + pascal_warnings(all.skip(0), 0));
    }
    while i < n
        invariant
            n == raws@.len(),
            i <= n,
            all == split_lines_spec(source@),
            raws.deep_view() == all,
            pascal_warnings(all, 0) == out.deep_view() + pascal_warnings(
                all.skip(i as int),
                i as int,
            ),
        decreases n - i,
    {
        let ghost rest = all.skip(i as int);
        proof {
            assert(rest[0] == raws.deep_view()[i as int]);
            assert(raws@[i as int].deep_view() =~= raws@[i as int]@);
            assert(rest.drop_first() =~= all.skip(i + 1));
        }
        proof {
            assert(i < 0xffff_ffff_ffff_ffff);
        }
        pascal_line_warnings_exec(&raws[i], i, &mut out);
        proof {
            assert(out.deep_view() + pascal_warnings(all.skip(i + 1), i + 1 as int)
                =~= pascal_warnings(all, 0));
        }
        i = i + 1;
    }
    proof {
        assert(all.skip(n as int) =~= Seq::<Seq<char>>::empty());
        assert(out.deep_view() + pascal_warnings(all.skip(n as int), n as int) =~= out.deep_view());
    }
    out
}

/// The Prolog shape warnings for a whole source text.
pub fn prolog_warnings_exec(source: &Vec<char>) -> (r: Vec<Vec<char>>)
    ensures
        r.deep_view() == prolog_warnings(split_lines_spec(source@), 0),
{
    let raws = split_lines(source);
    let ghost all = split_lines_spec(source@);
    let mut out: Vec<Vec<char>> = Vec::new();
    let n = raws.len();
    let mut i: usize = 0;
    proof {
        assert(all.skip(0) =~= all);
        assert(out.deep_view() =~= Seq::<Seq<char>>::empty());
        assert(prolog_warnings(all, 0) =~= out.deep_view() + prolog_warnings(all.skip(0), 0));
    }
    while i < n
        invariant
            n == raws@.len(),
            i <= n,
            all == split_lines_spec(source@),
            raws.deep_view() == all,
            prolog_warnings(all, 0) == out.deep_view() + prolog_warnings(
                all.skip(i as int),
                i as int,
            ),
        decreases n - i,
    {
        let ghost rest = all.skip(i as int);
        proof {
            assert(rest[0] == raws.deep_view()[i as int]);
            assert(raws@[i as int].deep_view() =~= raws@[i as int]@);
            assert(rest.drop_first() =~= all.skip(i + 1));
        }
        proof {
            assert(i < 0xffff_ffff_ffff_ffff);
        }
        prolog_line_warnings_exec(&raws[i], i, &mut out);
        proof {
            assert(out.deep_view() + prolog_warnings(all.skip(i + 1), i + 1 as int)
                =~= prolog_warnings(all, 0));
        }
        i = i + 1;
    }
    proof {
        assert(all.skip(n as int) =~= Seq::<Seq<char>>::empty());
        assert(out.deep_view() + prolog_warnings(all.skip(n as int), n as int) =~= out.deep_view());
    }
    out
}

} // verus!
