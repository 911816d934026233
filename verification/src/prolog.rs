//! The Prolog-family interpreter: a single pass that builds a clause
//! database (facts and rule texts per predicate name) while reporting each
//! line, and answers queries with a presence-and-count report only — no
//! unification, no backtracking. The database is built fresh on every run.

use vstd::prelude::*;
use crate::session::{Session, SuspModel, Suspension, susp_view};
use crate::text::{
    chars_of, concat_chars, contains_spec, contains_sub, copy_chars, copy_lines, dec_nat,
    ends_with, ends_with_char, find_char_at, find_char_rec, find_sub_at, find_sub_rec, lower_spec,
    quoted_between, quoted_between_exec, skip_chars, split_lines, split_lines_spec, starts_with,
    starts_with_spec, subrange_vec, to_lower, trim, trim_end_char_spec, trim_end_matches_char,
    trim_spec, u64_to_chars,
};
use crate::vars::StrMap;

verus! {

/// What one Prolog pass produces: transcript lines, the clause database,
/// and a suspension if input was requested.
#[verifier::ext_equal]
pub ghost struct PrologStep {
    pub out: Seq<Seq<char>>,
    pub db: Map<Seq<char>, Seq<Seq<char>>>,
    pub susp: Option<SuspModel>,
}

/// The text before the first opening parenthesis: a predicate name.
pub open spec fn before_paren(s: Seq<char>) -> Seq<char> {
    match find_char_rec(s, '(') {
        Some(i) => s.take(i),
        None => s,
    }
}

/// One clause appended under `key`, starting a list when none exists.
pub open spec fn db_add(
    db: Map<Seq<char>, Seq<Seq<char>>>,
    key: Seq<char>,
    clause: Seq<char>,
) -> Map<Seq<char>, Seq<Seq<char>>> {
    db.insert(
        key,
        if db.contains_key(key) {
            db[key].push(clause)
        } else {
            seq![clause]
        },
    )
}

/// What one Prolog line does: the transcript lines it emits, the new clause
/// database, and a suspension if it requests input.
pub open spec fn prolog_line(db: Map<Seq<char>, Seq<Seq<char>>>, raw: Seq<char>) -> PrologStep {
    let line = trim_spec(raw);
    let low = lower_spec(line);
    if line.len() == 0 || line[0] == '%' || starts_with_spec(line, "/*"@) {
        PrologStep { out: Seq::empty(), db, susp: None }
    } else if starts_with_spec(low, "domains"@) {
        PrologStep { out: seq!["DOMAINS section:"@], db, susp: None }
    } else if starts_with_spec(low, "predicates"@) {
        PrologStep { out: seq!["PREDICATES section:"@], db, susp: None }
    } else if starts_with_spec(low, "goal"@) {
        PrologStep { out: seq!["GOAL section:"@], db, susp: None }
    } else if starts_with_spec(low, "clauses"@) {
        PrologStep { out: seq!["CLAUSES section:"@], db, susp: None }
    } else if contains_spec(line, "="@) && !contains_spec(line, ":-"@) && !contains_spec(
        line,
        "("@,
    ) {
        PrologStep { out: seq!["Domain: "@ + line], db, susp: None }
    } else if contains_spec(line, "("@) && contains_spec(line, ")"@) && !contains_spec(
        line,
        ":-"@,
    ) && !contains_spec(line, "."@) {
        let name = trim_spec(before_paren(line));
        PrologStep {
            out: seq!["Predicate declared: "@ + name],
            db: db.insert(name, Seq::empty()),
            susp: None,
        }
    } else if contains_spec(line, ":-"@) {
        match find_sub_rec(line, ":-"@) {
            Some(i) => {
                if find_sub_rec(line.skip(i + 2), ":-"@) is None {
                    let head = trim_spec(line.take(i));
                    let body = trim_end_char_spec(trim_spec(line.skip(i + 2)), '.');
                    let clause = head + " :- "@ + body;
                    let key = trim_spec(before_paren(head));
                    PrologStep {
                        out: seq!["Rule: "@ + clause],
                        db: db_add(db, key, clause),
                        susp: None,
                    }
                } else {
                    PrologStep { out: Seq::empty(), db, susp: None }
                }
            },
            None => PrologStep { out: Seq::empty(), db, susp: None },
        }
    } else if ends_with_char(line, '.') && contains_spec(line, "("@) {
        let fact = trim_end_char_spec(line, '.');
        let key = trim_spec(before_paren(fact));
        PrologStep { out: seq!["Fact: "@ + fact], db: db_add(db, key, fact), susp: None }
    } else if ends_with_char(line, '.') && !contains_spec(line, "("@) && !contains_spec(
        line,
        ":-"@,
    ) {
        let q = trim_end_char_spec(line, '.');
        let key = trim_spec(before_paren(q));
        let head = seq!["Query: "@ + q];
        if db.contains_key(key) {
            let cs = db[key];
            if cs.len() > 0 {
                PrologStep {
                    out: head + seq![
                        "  Found "@ + dec_nat(cs.len() as int) + " clause(s) for "@ + key,
                    ] + cs.map_values(|c: Seq<char>| "    "@ + c),
                    db,
                    susp: None,
                }
            } else {
                PrologStep { out: head + seq!["  No clauses found for "@ + key], db, susp: None }
            }
        } else {
            PrologStep { out: head + seq!["  Unknown predicate: "@ + key], db, susp: None }
        }
    } else if contains_spec(low, "write("@) {
        let content = match find_char_rec(line, '"') {
            Some(_) => match quoted_between(line, '"') {
                Some(c) => c,
                None => "unknown"@,
            },
            None => "variable"@,
        };
        PrologStep { out: seq!["WRITE: "@ + content], db, susp: None }
    } else if contains_spec(low, "nl"@) {
        PrologStep { out: seq!["NEWLINE"@], db, susp: None }
    } else if contains_spec(low, "readln("@) {
        let prompt = "Enter value for readln:"@;
        PrologStep {
            out: seq![prompt + " "@],
            db,
            susp: Some(SuspModel { prompt, target: "READLN"@ }),
        }
    } else if contains_spec(line, "+"@) || contains_spec(line, "-"@) || contains_spec(line, "*"@)
        || contains_spec(line, "/"@) {
        PrologStep { out: seq!["Arithmetic expression: "@ + line], db, susp: None }
    } else if contains_spec(line, "="@) || contains_spec(line, ">"@) || contains_spec(
        line,
        "<"@,
    ) {
        PrologStep { out: seq!["Comparison: "@ + line], db, susp: None }
    } else if !ends_with_char(line, '.') {
        PrologStep { out: seq!["Prolog statement: "@ + line], db, susp: None }
    } else {
        PrologStep { out: Seq::empty(), db, susp: None }
    }
}

/// The Prolog pass over a line list, stopping at the first suspension.
pub open spec fn prolog_run(
    lines: Seq<Seq<char>>,
    db: Map<Seq<char>, Seq<Seq<char>>>,
) -> PrologStep
    decreases lines.len(),
{
    if lines.len() == 0 {
        PrologStep { out: Seq::empty(), db, susp: None }
    } else {
        let e = prolog_line(db, lines[0]);
        if e.susp is Some {
            e
        } else {
            let r = prolog_run(lines.drop_first(), e.db);
            PrologStep { out: e.out + r.out, db: r.db, susp: r.susp }
        }
    }
}

/// The text before the first `(`, as executable code.
fn before_paren_exec(s: &Vec<char>) -> (r: Vec<char>)
    ensures
        r@ == before_paren(s@),
{
    match find_char_at(s, '(') {
        Some(i) => {
            proof {
                crate::text::lemma_find_char_rec_props(s@, '(');
                assert(s@.subrange(0, i as int) =~= s@.take(i as int));
            }
            subrange_vec(s, 0, i)
        },
        None => copy_chars(s),
    }
}

/// Appends one clause under `key` in the database.
fn db_add_exec(db: &mut StrMap<Vec<Vec<char>>>, key: Vec<char>, clause: Vec<char>)
    ensures
        final(db)@ == db_add(old(db)@, key@, clause@),
{
    let ghost kd = key@;
    let ghost cd = clause@;
    proof {
        assert(key.deep_view() =~= kd);
        assert(clause.deep_view() =~= cd);
    }
    let mut nv: Vec<Vec<char>> = match db.get(&key) {
        Some(cur) => copy_lines(cur),
        None => Vec::new(),
    };
    let ghost base = nv.deep_view();
    nv.push(clause);
    proof {
        assert(nv.deep_view() =~= base.push(cd));
        if old(db)@.contains_key(kd) {
            assert(nv.deep_view() =~= old(db)@[kd].push(cd));
        } else {
            assert(nv.deep_view() =~= seq![cd]);
        }
    }
    db.set(key, nv);
}

/// Runs one Prolog line against the database, appending to `out`.
fn exec_line(db: &mut StrMap<Vec<Vec<char>>>, raw: &Vec<char>, out: &mut Vec<Vec<char>>) -> (susp:
    Option<Suspension>)
    ensures
        ({
            let e = prolog_line(old(db)@, raw@);
            &&& final(out).deep_view() == old(out).deep_view() + e.out
            &&& final(db)@ == e.db
            &&& susp_view(susp) == e.susp
        }),
{
    let ghost e = prolog_line(old(db)@, raw@);
    proof {
        reveal_strlit("/*");
        reveal_strlit(":-");
        reveal_strlit("write(");
        reveal_strlit("readln(");
    }
    let line = trim(raw);
    let low = to_lower(&line);
    let mut emitted: Vec<Vec<char>> = Vec::new();
    let mut susp: Option<Suspension> = None;
    if line.len() == 0 || line[0] == '%' || starts_with(&line, &chars_of("/*")) {
    } else if starts_with(&low, &chars_of("domains")) {
        emitted.push(chars_of("DOMAINS section:"));
    } else if starts_with(&low, &chars_of("predicates")) {
        emitted.push(chars_of("PREDICATES section:"));
    } else if starts_with(&low, &chars_of("goal")) {
        emitted.push(chars_of("GOAL section:"));
    } else if starts_with(&low, &chars_of("clauses")) {
        emitted.push(chars_of("CLAUSES section:"));
    } else if contains_sub(&line, &chars_of("=")) && !contains_sub(&line, &chars_of(":-"))
        && !contains_sub(&line, &chars_of("(")) {
        emitted.push(concat_chars(&chars_of("Domain: "), &line));
    } else if contains_sub(&line, &chars_of("(")) && contains_sub(&line, &chars_of(")"))
        && !contains_sub(&line, &chars_of(":-")) && !contains_sub(&line, &chars_of(".")) {
        let name = trim(&before_paren_exec(&line));
        emitted.push(concat_chars(&chars_of("Predicate declared: "), &name));
        let ghost nd = name@;
        proof {
            assert(name.deep_view() =~= nd);
        }
        let empty: Vec<Vec<char>> = Vec::new();
        proof {
            assert(empty.deep_view() =~= Seq::<Seq<char>>::empty());
        }
        db.set(name, empty);
    } else if contains_sub(&line, &chars_of(":-")) {
        match find_sub_at(&line, &chars_of(":-")) {
            Some(i) => {
                proof {
                    crate::text::lemma_find_sub_rec_props(line@, ":-"@);
                }
                let rest = skip_chars(&line, i + 2);
                proof {
                    assert(rest@ =~= line@.skip(i + 2));
                }
                match find_sub_at(&rest, &chars_of(":-")) {
                    Some(_) => (),
                    None => {
                        let head = trim(&subrange_vec(&line, 0, i));
                        proof {
                            assert(line@.subrange(0, i as int) =~= line@.take(i as int));
                        }
                        let body = trim_end_matches_char(&trim(&rest), '.');
                        let c0 = copy_chars(&head);
                        let c1 = concat_chars(&c0, &chars_of(" :- "));
                        let clause = concat_chars(&c1, &body);
                        emitted.push(concat_chars(&chars_of("Rule: "), &clause));
                        let key = trim(&before_paren_exec(&head));
                        db_add_exec(db, key, clause);
                    },
                }
            },
            None => (),
        }
    } else if ends_with(&line, '.') && contains_sub(&line, &chars_of("(")) {
        let fact = trim_end_matches_char(&line, '.');
        emitted.push(concat_chars(&chars_of("Fact: "), &fact));
        let key = trim(&before_paren_exec(&fact));
        db_add_exec(db, key, fact);
    } else if ends_with(&line, '.') && !contains_sub(&line, &chars_of("(")) && !contains_sub(
        &line,
        &chars_of(":-"),
    ) {
        let q = trim_end_matches_char(&line, '.');
        emitted.push(concat_chars(&chars_of("Query: "), &q));
        let key = trim(&before_paren_exec(&q));
        proof {
            assert(key.deep_view() =~= key@);
        }
        match db.get(&key) {
            Some(cs) => {
                if cs.len() > 0 {
                    let m0 = chars_of("  Found ");
                    let m1 = concat_chars(&m0, &u64_to_chars(cs.len() as u64));
                    let m2 = concat_chars(&m1, &chars_of(" clause(s) for "));
                    emitted.push(concat_chars(&m2, &key));
                    let ghost csd = cs.deep_view();
                    let n = cs.len();
                    let mut k: usize = 0;
                    let ghost base = emitted.deep_view();
                    while k < n
                        invariant
                            n == cs@.len(),
                            k <= n,
                            csd == cs.deep_view(),
                            emitted.deep_view() == base + csd.map_values(
                                |c: Seq<char>| "    "@ + c,
                            ).take(k as int),
                        decreases n - k,
                    {
                        proof {
                            assert(cs@[k as int].deep_view() =~= cs@[k as int]@);
                        }
                        let l = concat_chars(&chars_of("    "), &cs[k]);
                        let ghost lv = l@;
                        let ghost prev = emitted.deep_view();
                        proof {
                            assert(l.deep_view() =~= lv);
                        }
                        emitted.push(l);
                        proof {
                            assert(emitted.deep_view() =~= prev.push(lv));
                            assert(prev.push(lv) =~= base + csd.map_values(
                                |c: Seq<char>| "    "@ + c,
                            ).take(k + 1 as int));
                        }
                        k = k + 1;
                    }
                    proof {
                        let mapped = csd.map_values(|c: Seq<char>| "    "@ + c);
                        assert(mapped.take(n as int) =~= mapped);
                    }
                } else {
                    let m0 = chars_of("  No clauses found for ");
                    emitted.push(concat_chars(&m0, &key));
                }
            },
            None => {
                let m0 = chars_of("  Unknown predicate: ");
                emitted.push(concat_chars(&m0, &key));
            },
        }
    } else if contains_sub(&low, &chars_of("write(")) {
        let content: Vec<char> = match find_char_at(&line, '"') {
            Some(_) => match quoted_between_exec(&line, '"') {
                Some(c) => c,
                None => chars_of("unknown"),
            },
            None => chars_of("variable"),
        };
        emitted.push(concat_chars(&chars_of("WRITE: "), &content));
    } else if contains_sub(&low, &chars_of("nl")) {
        emitted.push(chars_of("NEWLINE"));
    } else if contains_sub(&low, &chars_of("readln(")) {
        let prompt = chars_of("Enter value for readln:");
        emitted.push(concat_chars(&prompt, &chars_of(" ")));
        susp = Some(Suspension { prompt, target: chars_of("READLN") });
    } else if contains_sub(&line, &chars_of("+")) || contains_sub(&line, &chars_of("-"))
        || contains_sub(&line, &chars_of("*")) || contains_sub(&line, &chars_of("/")) {
        emitted.push(concat_chars(&chars_of("Arithmetic expression: "), &line));
    } else if contains_sub(&line, &chars_of("=")) || contains_sub(&line, &chars_of(">"))
        || contains_sub(&line, &chars_of("<")) {
        emitted.push(concat_chars(&chars_of("Comparison: "), &line));
    } else if !ends_with(&line, '.') {
        emitted.push(concat_chars(&chars_of("Prolog statement: "), &line));
    } else {
    }
    proof {
        assert(emitted.deep_view() =~~= e.out);
        assert(final(db)@ =~= e.db);
        assert(susp_view(susp) =~~= e.susp);
    }
    let mut k: usize = 0;
    while k < emitted.len()
        invariant
            k <= emitted@.len(),
            out.deep_view() == old(out).deep_view() + emitted.deep_view().take(k as int),
        decreases emitted.len() - k,
    {
        let l = copy_chars(&emitted[k]);
        proof {
            assert(emitted@[k as int].deep_view() =~= emitted@[k as int]@);
            assert(l@ == emitted.deep_view()[k as int]);
            assert(old(out).deep_view() + emitted.deep_view().take(k + 1 as int) =~= (old(
                out,
            ).deep_view() + emitted.deep_view().take(k as int)).push(l@));
        }
        crate::text::push_line(out, l);
        k = k + 1;
    }
    proof {
        assert(emitted.deep_view().take(emitted@.len() as int) =~= emitted.deep_view());
    }
    susp
}

/// Runs Prolog source against the session: builds the clause database
/// fresh, reports every line, answers queries by clause count, and stops
/// with a suspension on an input request. The variable store and turtle are
/// untouched.
pub fn execute_prolog(session: &mut Session, source: &Vec<char>) -> (out: Vec<Vec<char>>)
    requires
        old(session)@.suspension is None,
    ensures
        ({
            let r = prolog_run(split_lines_spec(source@), Map::empty());
            &&& out.deep_view() == r.out
            &&& final(session)@.suspension == r.susp
            &&& final(session)@.vars == old(session)@.vars
            &&& final(session)@.turtle == old(session)@.turtle
        }),
{
    let lines = split_lines(source);
    let ghost all = split_lines_spec(source@);
    let mut db: StrMap<Vec<Vec<char>>> = StrMap::new();
    let mut out: Vec<Vec<char>> = Vec::new();
    let n = lines.len();
    let mut i: usize = 0;
    proof {
        assert(all.skip(0) =~= all);
        assert(out.deep_view() =~= Seq::<Seq<char>>::empty());
    }
    while i < n
        invariant
            n == lines@.len(),
            i <= n,
            all == split_lines_spec(source@),
            lines.deep_view() == all,
            session@ == old(session)@,
            ({
                let r0 = prolog_run(all, Map::empty());
                let r = prolog_run(all.skip(i as int), db@);
                &&& r0.out == out.deep_view() + r.out
                &&& r0.db == r.db
                &&& r0.susp == r.susp
            }),
        decreases n - i,
    {
        let ghost rest = all.skip(i as int);
        let ghost db_before = db@;
        proof {
            assert(rest.len() > 0);
            assert(rest[0] == lines.deep_view()[i as int]);
            assert(lines@[i as int].deep_view() =~= lines@[i as int]@);
            assert(rest.drop_first() =~= all.skip(i + 1));
        }
        let susp = exec_line(&mut db, &lines[i], &mut out);
        match susp {
            Some(s) => {
                session.suspension = Some(s);
                return out;
            },
            None => (),
        }
        i = i + 1;
    }
    proof {
        assert(all.skip(n as int) =~= Seq::<Seq<char>>::empty());
    }
    out
}

} // verus!
