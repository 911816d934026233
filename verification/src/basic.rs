//! The BASIC-family interpreter: a line-indexed program with jumps
//! (`GOTO`/`GOSUB`/`RETURN`), counted loops (`FOR`/`NEXT`), conditional
//! loops (`WHILE`/`WEND`), conditionals (`IF`/`THEN`), input, and embedded
//! teaching-language and turtle commands.
//!
//! Parsing: blank and comment lines are dropped; a leading integer followed
//! by a space is an explicit label. If any line carries an explicit label
//! the whole program is sorted by label, stably; label-free programs keep
//! source order. Jumps resolve a label to its first position in the sorted
//! list.
//!
//! Deliberate semantics, stated here once: `RETURN` resumes one line past
//! the saved call site; `NEXT` re-enters a live loop without moving the
//! cursor, so the loop body between `FOR` and `NEXT` runs once and the
//! counter then spins at the `NEXT` line itself; the teaching-language
//! `A:` marker raises the same input suspension as `INPUT`; numbers are
//! whole: a fractional literal fails to parse and the command's effect is
//! silently skipped, like any other numeric parse failure.

use vstd::prelude::*;
use crate::session::Session;
use crate::text::{
    chars_of, dec_int, dec_nat, find_char, find_char_rec, lemma_find_char_rec_props,
    parse_i64_chars, parse_i64_spec, parse_u32_chars, parse_u32_spec, split_lines,
    split_lines_spec, starts_with, starts_with_spec, subrange_vec, skip_chars, skip_spec, trim,
    trim_spec,
};

verus! {

/// One program line: its key (explicit label or source position), whether
/// the label was explicit, its source position, and its command text.
pub struct ProgLine {
    pub key: u64,
    pub labeled: bool,
    pub src: u64,
    pub text: Vec<char>,
}

/// A program line as contracts see it.
#[verifier::ext_equal]
pub ghost struct LineModel {
    pub key: int,
    pub labeled: bool,
    pub src: int,
    pub text: Seq<char>,
}

impl DeepView for ProgLine {
    type V = LineModel;

    open spec fn deep_view(&self) -> LineModel {
        LineModel {
            key: self.key as int,
            labeled: self.labeled,
            src: self.src as int,
            text: self.text@,
        }
    }
}

/// How one source line parses: dropped (blank or comment), explicitly
/// labeled, or keyed by its source position.
pub open spec fn parse_one(raw: Seq<char>, idx: int) -> Option<LineModel> {
    let line = trim_spec(raw);
    if line.len() == 0 || starts_with_spec(line, "REM"@) || starts_with_spec(line, "'"@) {
        None
    } else {
        match find_char_rec(line, ' ') {
            Some(sp) => match parse_u32_spec(line.take(sp)) {
                Some(num) => Some(
                    LineModel {
                        key: num as int,
                        labeled: true,
                        src: idx,
                        text: trim_spec(line.skip(sp)),
                    },
                ),
                None => Some(LineModel { key: idx, labeled: false, src: idx, text: line }),
            },
            None => Some(LineModel { key: idx, labeled: false, src: idx, text: line }),
        }
    }
}

/// The program lines parsed from the source lines, in source order.
pub open spec fn parse_lines(raws: Seq<Seq<char>>, idx: int) -> Seq<LineModel>
    decreases raws.len(),
{
    if raws.len() == 0 {
        Seq::empty()
    } else {
        (match parse_one(raws[0], idx) {
            Some(l) => seq![l],
            None => Seq::empty(),
        }) + parse_lines(raws.drop_first(), idx + 1)
    }
}

/// The execution order: by key, and by source position among equal keys.
pub open spec fn line_le(a: LineModel, b: LineModel) -> bool {
    a.key < b.key || (a.key == b.key && a.src <= b.src)
}

/// `l` inserted into `s` after every element that does not exceed it: the
/// insertion step of a stable sort.
pub open spec fn insert_line(s: Seq<LineModel>, l: LineModel) -> Seq<LineModel>
    decreases s.len(),
{
    if s.len() == 0 {
        seq![l]
    } else if line_le(s.last(), l) {
        s.push(l)
    } else {
        insert_line(s.drop_last(), l).push(s.last())
    }
}

/// Stable insertion sort by `line_le`.
pub open spec fn sort_lines(s: Seq<LineModel>) -> Seq<LineModel>
    decreases s.len(),
{
    if s.len() == 0 {
        Seq::empty()
    } else {
        insert_line(sort_lines(s.drop_last()), s.last())
    }
}

/// Every pair of positions stands in execution order: ascending keys, and
/// ascending source position among equal keys.
pub open spec fn lines_sorted(s: Seq<LineModel>) -> bool {
    forall|i: int, j: int| 0 <= i < j < s.len() ==> line_le(s[i], s[j])
}

proof fn lemma_insert_line_props(s: Seq<LineModel>, l: LineModel)
    requires
        lines_sorted(s),
    ensures
        lines_sorted(insert_line(s, l)),
        insert_line(s, l).to_multiset() == s.to_multiset().insert(l),
        insert_line(s, l).len() == s.len() + 1,
        forall|m: int|
            0 <= m < insert_line(s, l).len() ==> (insert_line(s, l)[m] == l || exists|j: int|
                0 <= j < s.len() && insert_line(s, l)[m] == s[j]),
    decreases s.len(),
{
    broadcast use vstd::seq_lib::group_to_multiset_ensures;

    let t = insert_line(s, l);
    if s.len() == 0 {
        assert(seq![l] =~= Seq::<LineModel>::empty().push(l));
        assert(t.to_multiset() == s.to_multiset().insert(l));
    } else if line_le(s.last(), l) {
        assert forall|m: int| 0 <= m < s.len() implies line_le(t[m], l) by {
            if m < s.len() - 1 {
                assert(line_le(s[m], s[s.len() - 1]));
            }
        }
        assert(lines_sorted(t));
        assert forall|m: int| 0 <= m < t.len() implies (t[m] == l || exists|j: int|
            0 <= j < s.len() && t[m] == s[j]) by {
            if m < s.len() {
                assert(t[m] == s[m]);
            }
        }
    } else {
        assert(lines_sorted(s.drop_last()));
        lemma_insert_line_props(s.drop_last(), l);
        let t0 = insert_line(s.drop_last(), l);
        // every element of t0 does not exceed s.last()
        assert forall|m: int| 0 <= m < t0.len() implies line_le(t0[m], s.last()) by {
            if t0[m] == l {
                assert(line_le(l, s.last()));
            } else {
                let j = choose|j: int| 0 <= j < s.drop_last().len() && t0[m] == s.drop_last()[j];
                assert(s.drop_last()[j] == s[j]);
                if j < s.len() - 1 {
                    assert(line_le(s[j], s[s.len() - 1]));
                }
            }
        }
        assert(lines_sorted(t));
        assert(s =~= s.drop_last().push(s.last()));
        assert(s.to_multiset() == s.drop_last().to_multiset().insert(s.last()));
        assert(t.to_multiset() == t0.to_multiset().insert(s.last()));
        assert(t0.to_multiset() == s.drop_last().to_multiset().insert(l));
        assert(s.drop_last().to_multiset().insert(l).insert(s.last())
            == s.drop_last().to_multiset().insert(s.last()).insert(l));
        assert forall|m: int| 0 <= m < t.len() implies (t[m] == l || exists|j: int|
            0 <= j < s.len() && t[m] == s[j]) by {
            if m < t0.len() {
                if t0[m] != l {
                    let j = choose|j: int|
                        0 <= j < s.drop_last().len() && t0[m] == s.drop_last()[j];
                    assert(t[m] == s[j]);
                }
            } else {
                assert(t[m] == s[s.len() - 1]);
            }
        }
    }
}

/// The stable sort keeps every line, once, and orders them totally: the
/// result is sorted by key (source position breaking ties) and holds
/// exactly the lines of the input.
pub proof fn lemma_sort_lines_props(s: Seq<LineModel>)
    ensures
        lines_sorted(sort_lines(s)),
        sort_lines(s).to_multiset() == s.to_multiset(),
        sort_lines(s).len() == s.len(),
    decreases s.len(),
{
    broadcast use vstd::seq_lib::group_to_multiset_ensures;

    if s.len() > 0 {
        lemma_sort_lines_props(s.drop_last());
        lemma_insert_line_props(sort_lines(s.drop_last()), s.last());
        assert(s =~= s.drop_last().push(s.last()));
        assert(s.to_multiset() == s.drop_last().to_multiset().insert(s.last()));
    }
}

/// Lines of a label-numbered program stand — and, as the cursor ascends,
/// execute — in ascending label order, whatever their source order: the
/// sort is total (the multiset of parsed lines is kept) and stable (equal
/// labels keep their relative source order, as `line_le` orders equal keys
/// by source position). A label-free program keeps source order.
pub proof fn law_label_order(source: Seq<char>)
    ensures
        ({
            let parsed = parse_lines(split_lines_spec(source), 0);
            let p = program_spec(source);
            &&& any_labeled(parsed) ==> lines_sorted(p) && p.to_multiset() == parsed.to_multiset()
            &&& !any_labeled(parsed) ==> p == parsed
        }),
{
    let parsed = parse_lines(split_lines_spec(source), 0);
    if any_labeled(parsed) {
        lemma_sort_lines_props(parsed);
    }
}

/// Some parsed line carries an explicit label.
pub open spec fn any_labeled(ls: Seq<LineModel>) -> bool {
    exists|i: int| 0 <= i < ls.len() && ls[i].labeled
}

/// The program a source text denotes: its parsed lines, sorted by label
/// when any line carries one.
pub open spec fn program_spec(source: Seq<char>) -> Seq<LineModel> {
    let p = parse_lines(split_lines_spec(source), 0);
    if any_labeled(p) {
        sort_lines(p)
    } else {
        p
    }
}

/// The first position holding an explicit label `k`: the jump target.
pub open spec fn find_label(ls: Seq<LineModel>, k: int) -> Option<int>
    decreases ls.len(),
{
    if ls.len() == 0 {
        None
    } else if ls[0].labeled && ls[0].key == k {
        Some(0)
    } else {
        match find_label(ls.drop_first(), k) {
            Some(i) => Some(i + 1),
            None => None,
        }
    }
}

proof fn lemma_find_label_some(ls: Seq<LineModel>, k: int, i: int)
    requires
        0 <= i < ls.len(),
        ls[i].labeled && ls[i].key == k,
        forall|j: int| 0 <= j < i ==> !(ls[j].labeled && ls[j].key == k),
    ensures
        find_label(ls, k) == Some(i),
    decreases i,
{
    if i > 0 {
        lemma_find_label_some(ls.drop_first(), k, i - 1);
    }
}

proof fn lemma_find_label_none(ls: Seq<LineModel>, k: int)
    requires
        forall|j: int| 0 <= j < ls.len() ==> !(ls[j].labeled && ls[j].key == k),
    ensures
        find_label(ls, k) is None,
    decreases ls.len(),
{
    if ls.len() > 0 {
        lemma_find_label_none(ls.drop_first(), k);
    }
}

/// The jump-index lookup: the first position carrying label `k`.
pub fn find_label_exec(ls: &Vec<ProgLine>, k: u64) -> (r: Option<usize>)
    ensures
        match r {
            Some(i) => find_label(ls.deep_view(), k as int) == Some(i as int) && i < ls@.len(),
            None => find_label(ls.deep_view(), k as int) is None,
        },
{
    let n = ls.len();
    let mut i: usize = 0;
    while i < n
        invariant
            n == ls@.len(),
            i <= n,
            forall|j: int|
                0 <= j < i ==> !(ls.deep_view()[j].labeled && ls.deep_view()[j].key == k as int),
        decreases n - i,
    {
        if ls[i].labeled && ls[i].key == k {
            proof {
                lemma_find_label_some(ls.deep_view(), k as int, i as int);
            }
            return Some(i);
        }
        i = i + 1;
    }
    proof {
        lemma_find_label_none(ls.deep_view(), k as int);
    }
    None
}

/// Parses the source into program lines, in source order; reports whether
/// any line carried an explicit label.
fn parse_program(source: &Vec<char>) -> (r: (Vec<ProgLine>, bool))
    ensures
        r.0.deep_view() == parse_lines(split_lines_spec(source@), 0),
        r.1 == any_labeled(parse_lines(split_lines_spec(source@), 0)),
{
    let raws = split_lines(source);
    let ghost all = split_lines_spec(source@);
    let mut out: Vec<ProgLine> = Vec::new();
    let mut has_label = false;
    let n = raws.len();
    let mut i: usize = 0;
    proof {
        assert(all.skip(0) =~= all);
        assert(out.deep_view() =~= Seq::<LineModel>::empty());
        assert(parse_lines(all, 0) =~= out.deep_view() + parse_lines(all.skip(0), 0));
    }
    while i < n
        invariant
            n == raws@.len(),
            i <= n,
            all == split_lines_spec(source@),
            raws.deep_view() == all,
            parse_lines(all, 0) == out.deep_view() + parse_lines(all.skip(i as int), i as int),
            has_label == any_labeled(out.deep_view()),
        decreases n - i,
    {
        let ghost rest = all.skip(i as int);
        proof {
            assert(rest[0] == raws.deep_view()[i as int]);
            assert(raws@[i as int].deep_view() =~= raws@[i as int]@);
            assert(rest.drop_first() =~= all.skip(i + 1));
        }
        let line = trim(&raws[i]);
        let ghost parsed = parse_one(rest[0], i as int);
        proof {
            reveal_strlit("REM");
            reveal_strlit("'");
        }
        if line.len() == 0 || starts_with(&line, &chars_of("REM")) || starts_with(
            &line,
            &chars_of("'"),
        ) {
            proof {
                assert(parsed is None);
                assert(out.deep_view() + parse_lines(all.skip(i + 1), i + 1 as int)
                    =~= parse_lines(all, 0));
            }
        } else {
            let entry: ProgLine = match find_char(&line, ' ') {
                Some(sp) => {
                    proof {
                        lemma_find_char_rec_props(line@, ' ');
                        crate::text::lemma_find_char_rec_some(line@, ' ', sp as int);
                        assert(line@.subrange(0, sp as int) =~= line@.take(sp as int));
                    }
                    let head = subrange_vec(&line, 0, sp);
                    match parse_u32_chars(&head) {
                        Some(num) => {
                            let tail = trim(&skip_chars(&line, sp));
                            proof {
                                assert(skip_spec(line@, sp as int) =~= line@.skip(sp as int));
                            }
                            ProgLine { key: num as u64, labeled: true, src: i as u64, text: tail }
                        },
                        None => ProgLine { key: i as u64, labeled: false, src: i as u64, text: line },
                    }
                },
                None => {
                    proof {
                        crate::text::lemma_find_char_rec_none(line@, ' ');
                    }
                    ProgLine { key: i as u64, labeled: false, src: i as u64, text: line }
                },
            };
            if entry.labeled {
                has_label = true;
            }
            let ghost prev = out.deep_view();
            let ghost ev = entry.deep_view();
            proof {
                assert(parsed == Some(ev));
            }
            out.push(entry);
            proof {
                assert(out.deep_view() =~= prev.push(ev));
                assert(prev.push(ev) =~= prev + seq![ev]);
                assert(out.deep_view() + parse_lines(all.skip(i + 1), i + 1 as int)
                    =~= parse_lines(all, 0));
                let nv = out.deep_view();
                if any_labeled(prev) {
                    let w = choose|w: int| 0 <= w < prev.len() && prev[w].labeled;
                    assert(nv[w].labeled);
                    assert(any_labeled(nv));
                } else if ev.labeled {
                    assert(nv[prev.len() as int].labeled);
                    assert(any_labeled(nv));
                } else {
                    assert forall|w: int| 0 <= w < nv.len() implies !nv[w].labeled by {
                        if w < prev.len() {
                            assert(!prev[w].labeled);
                        }
                    }
                    assert(!any_labeled(nv));
                }
                assert(any_labeled(nv) == (any_labeled(prev) || ev.labeled));
            }
        }
        i = i + 1;
    }
    proof {
        assert(all.skip(n as int) =~= Seq::<Seq<char>>::empty());
        assert(out.deep_view() + parse_lines(all.skip(n as int), n as int) =~= out.deep_view());
    }
    (out, has_label)
}

/// Sorts the program lines stably by key, as `sort_lines` describes.
fn sort_program(mut v: Vec<ProgLine>) -> (r: Vec<ProgLine>)
    ensures
        r.deep_view() == sort_lines(v.deep_view()),
{
    let ghost input = v.deep_view();
    let mut sorted: Vec<ProgLine> = Vec::new();
    let n = v.len();
    proof {
        assert(sorted.deep_view() =~= Seq::<LineModel>::empty());
        assert(input.take(0) =~= Seq::<LineModel>::empty());
        assert(sort_lines(input.take(0)) =~= Seq::<LineModel>::empty());
    }
    let mut i: usize = 0;
    while i < n
        invariant
            n == v@.len(),
            i <= n,
            input == v.deep_view(),
            sorted.deep_view() == sort_lines(input.take(i as int)),
        decreases n - i,
    {
        let ghost l = input[i as int];
        let line = take_line(&v, i);
        proof {
            assert(line.deep_view() == l);
        }
        insert_line_exec(&mut sorted, line);
        proof {
            assert(input.take(i + 1 as int).drop_last() =~= input.take(i as int));
            assert(input.take(i + 1 as int).last() == l);
        }
        i = i + 1;
    }
    proof {
        assert(input.take(n as int) =~= input);
    }
    sorted
}

/// A copy of line `i` of `v`.
fn take_line(v: &Vec<ProgLine>, i: usize) -> (r: ProgLine)
    requires
        i < v@.len(),
    ensures
        r.deep_view() == v.deep_view()[i as int],
{
    let text = crate::text::copy_chars(&v[i].text);
    ProgLine { key: v[i].key, labeled: v[i].labeled, src: v[i].src, text }
}

/// Inserts `line` into the sorted prefix, after every element not
/// exceeding it.
fn insert_line_exec(sorted: &mut Vec<ProgLine>, line: ProgLine)
    ensures
        final(sorted).deep_view() == insert_line(old(sorted).deep_view(), line.deep_view()),
{
    let ghost s0 = sorted.deep_view();
    let ghost l = line.deep_view();
    let mut j: usize = sorted.len();
    proof {
        assert(s0.take(sorted@.len() as int) =~= s0);
        assert(insert_line(s0, l) + s0.skip(sorted@.len() as int) =~= insert_line(s0, l));
    }
    while j > 0 && !line_le_exec(&sorted[j - 1], &line)
        invariant
            j <= sorted@.len(),
            sorted.deep_view() == s0,
            l == line.deep_view(),
            insert_line(s0, l) == insert_line(s0.take(j as int), l) + s0.skip(j as int),
        decreases j,
    {
        proof {
            let t = s0.take(j as int);
            assert(t.last() == s0[j - 1]);
            assert(t.drop_last() =~= s0.take(j - 1));
            assert(insert_line(t, l) == insert_line(s0.take(j - 1), l).push(s0[j - 1]));
            assert(insert_line(s0.take(j - 1), l).push(s0[j - 1]) + s0.skip(j as int)
                =~= insert_line(s0.take(j - 1), l) + s0.skip(j - 1));
        }
        j = j - 1;
    }
    proof {
        if j > 0 {
            let t = s0.take(j as int);
            assert(t.last() == s0[j - 1]);
            assert(line_le(t.last(), l));
            assert(insert_line(t, l) == t.push(l));
        } else {
            assert(s0.take(0) =~= Seq::<LineModel>::empty());
            assert(insert_line(s0.take(0), l) == seq![l]);
        }
    }
    sorted.insert(j, line);
    proof {
        if j > 0 {
            assert(sorted.deep_view() =~= s0.take(j as int).push(l) + s0.skip(j as int));
        } else {
            assert(sorted.deep_view() =~= seq![l] + s0.skip(0));
        }
    }
}

/// The execution order test, on executable lines.
fn line_le_exec(a: &ProgLine, b: &ProgLine) -> (r: bool)
    ensures
        r == line_le(a.deep_view(), b.deep_view()),
{
    a.key < b.key || (a.key == b.key && a.src <= b.src)
}

/// The program denoted by `source`, as executable lines.
pub fn build_program(source: &Vec<char>) -> (r: Vec<ProgLine>)
    ensures
        r.deep_view() == program_spec(source@),
{
    let (parsed, has_label) = parse_program(source);
    if has_label {
        sort_program(parsed)
    } else {
        parsed
    }
}

// --- the execution machine, as contracts see it ----------------------------

/// One `FOR` loop frame: the counter variable, its current value, the bound
/// and the step.
pub struct ForFrame {
    pub var: Vec<char>,
    pub current: i64,
    pub limit: i64,
    pub step: i64,
}

#[verifier::ext_equal]
pub ghost struct ForModel {
    pub var: Seq<char>,
    pub current: i64,
    pub limit: i64,
    pub step: i64,
}

impl DeepView for ForFrame {
    type V = ForModel;

    open spec fn deep_view(&self) -> ForModel {
        ForModel { var: self.var@, current: self.current, limit: self.limit, step: self.step }
    }
}

/// The whole machine state: the (fixed) program, the execution cursor, the
/// transcript, the shared stores, the jump stacks and the suspension.
#[verifier::ext_equal]
pub ghost struct BasicState {
    pub lines: Seq<LineModel>,
    pub cur: int,
    pub out: Seq<Seq<char>>,
    pub vars: Map<Seq<char>, Seq<char>>,
    pub turtle: crate::turtle::TurtleModel,
    pub gosub: Seq<int>,
    pub fors: Seq<ForModel>,
    pub susp: Option<crate::session::SuspModel>,
}

/// Execution has ended: the cursor left the program, or input is awaited.
pub open spec fn basic_done(s: BasicState) -> bool {
    !(0 <= s.cur < s.lines.len()) || s.susp is Some
}

/// What `PRINT` emits for an argument: a quoted literal's contents, a blank
/// line for an empty argument, or the named variable's value.
pub open spec fn print_line(vars: Map<Seq<char>, Seq<char>>, args: Seq<char>) -> Seq<char> {
    if crate::text::trim_spec(args).len() == 0 {
        Seq::empty()
    } else {
        match crate::text::quoted_between(args, '"') {
            Some(t) => t,
            None => {
                let v = crate::text::trim_spec(args);
                if vars.contains_key(v) {
                    vars[v]
                } else {
                    "Undefined variable: "@ + v
                }
            },
        }
    }
}

/// What `LET` does: the last token before `=` is bound to the trimmed text
/// after it, verbatim, and the assignment is reported.
pub open spec fn let_effect(
    vars: Map<Seq<char>, Seq<char>>,
    args: Seq<char>,
) -> crate::session::DialectStep {
    match crate::text::find_char_rec(args, '=') {
        Some(eq) => {
            let var_part = crate::text::trim_spec(args.take(eq));
            let value = crate::text::trim_spec(args.skip(eq + 1));
            let ts = crate::text::tokens_spec(var_part);
            if ts.len() > 0 {
                let name = ts.last();
                crate::session::DialectStep {
                    out: seq![name + " = "@ + value],
                    vars: vars.insert(name, value),
                    susp: None,
                }
            } else {
                crate::session::DialectStep { out: Seq::empty(), vars, susp: None }
            }
        },
        None => crate::session::DialectStep { out: Seq::empty(), vars, susp: None },
    }
}

/// What `INPUT` raises: the quoted prompt if present (else a default), and
/// the first unquoted token as the target variable (else a sentinel).
pub open spec fn input_effect(args: Seq<char>) -> crate::session::SuspModel {
    let prompt = match crate::text::quoted_between(args, '"') {
        Some(p) => p,
        None => "Input:"@,
    };
    let target = match crate::text::first_plain_token(crate::text::tokens_spec(args)) {
        Some(t) => t,
        None => "INPUT"@,
    };
    crate::session::SuspModel { prompt, target }
}

/// Condition evaluation: a single `left = right` equality against the
/// store, true by default for every other shape.
pub open spec fn eval_cond(vars: Map<Seq<char>, Seq<char>>, cond: Seq<char>) -> bool {
    match crate::text::find_sub_rec(cond, "= "@) {
        Some(i) => if crate::text::find_sub_rec(cond.skip(i + 2), "= "@) is None {
            let left = crate::text::trim_spec(cond.take(i));
            let right = crate::text::trim_spec(cond.skip(i + 2));
            if vars.contains_key(left) {
                vars[left] == right
            } else {
                true
            }
        } else {
            true
        },
        None => true,
    }
}

/// The inline command an `IF`/`THEN` or `REPEAT` may run: `PRINT` or `LET`
/// only.
pub open spec fn inline_cmd(
    vars: Map<Seq<char>, Seq<char>>,
    cmd: Seq<char>,
) -> crate::session::DialectStep {
    let u = crate::text::upper_spec(cmd);
    if starts_with_spec(u, "PRINT"@) {
        crate::session::DialectStep {
            out: seq![print_line(vars, skip_spec(cmd, 6))],
            vars,
            susp: None,
        }
    } else if starts_with_spec(u, "LET "@) {
        let_effect(vars, skip_spec(cmd, 4))
    } else {
        crate::session::DialectStep { out: Seq::empty(), vars, susp: None }
    }
}

/// The inline command run `n` times over.
pub open spec fn repeat_cmd(
    vars: Map<Seq<char>, Seq<char>>,
    cmd: Seq<char>,
    n: nat,
) -> crate::session::DialectStep
    decreases n,
{
    if n == 0 {
        crate::session::DialectStep { out: Seq::empty(), vars, susp: None }
    } else {
        let e = inline_cmd(vars, cmd);
        let r = repeat_cmd(e.vars, cmd, (n - 1) as nat);
        crate::session::DialectStep { out: e.out + r.out, vars: r.vars, susp: None }
    }
}

/// The forward scan from a false `WHILE`: the position of the matching
/// `WEND`, counting nested pairs, or where the program ends.
pub open spec fn skip_wend(lines: Seq<LineModel>, i: int, nest: int) -> int
    decreases lines.len() - i,
{
    if nest == 0 || i + 1 >= lines.len() || i < 0 {
        i
    } else {
        let u = crate::text::upper_spec(lines[i + 1].text);
        let nest2 = if starts_with_spec(u, "WHILE "@) {
            nest + 1
        } else if u == "WEND"@ {
            nest - 1
        } else {
            nest
        };
        skip_wend(lines, i + 1, nest2)
    }
}

/// The backward scan from a `WEND`: the position of the matching `WHILE`,
/// counting nested pairs, or the program start.
pub open spec fn find_while(lines: Seq<LineModel>, i: int, nest: int) -> int
    decreases i,
{
    if i <= 0 || nest == 0 || i > lines.len() {
        i
    } else {
        let u = crate::text::upper_spec(lines[i - 1].text);
        let nest2 = if u == "WEND"@ {
            nest + 1
        } else if starts_with_spec(u, "WHILE "@) {
            nest - 1
        } else {
            nest
        };
        if nest2 == 0 {
            i - 1
        } else {
            find_while(lines, i - 1, nest2)
        }
    }
}

/// What `FOR` does to the stores: on a well-formed header, the counter is
/// bound to its start value, a frame is pushed and the loop is reported.
/// The result is the new bindings, the new frame stack and the emitted
/// lines.
pub open spec fn for_parts(
    vars: Map<Seq<char>, Seq<char>>,
    fors: Seq<ForModel>,
    args: Seq<char>,
) -> (Map<Seq<char>, Seq<char>>, Seq<ForModel>, Seq<Seq<char>>) {
    let ts = crate::text::tokens_spec(args);
    if ts.len() >= 5 && ts[1] == "="@ && ts[3] == "TO"@ {
        match (parse_i64_spec(ts[2]), parse_i64_spec(ts[4])) {
            (Some(st), Some(en)) => (
                vars.insert(ts[0], dec_int(st as int)),
                fors.push(ForModel { var: ts[0], current: st, limit: en, step: 1 }),
                seq![
                    "FOR "@ + ts[0] + " = "@ + dec_int(st as int) + " TO "@ + dec_int(en as int),
                ],
            ),
            _ => (vars, fors, Seq::empty()),
        }
    } else {
        (vars, fors, Seq::empty())
    }
}

/// What `NEXT` does: the topmost frame advances and the loop re-enters
/// without moving the cursor, or the frame is popped and reported done.
/// The result carries the new bindings, the new frame stack, the emitted
/// lines, and whether the cursor stays.
pub open spec fn next_parts(vars: Map<Seq<char>, Seq<char>>, fors: Seq<ForModel>) -> (
    Map<Seq<char>, Seq<char>>,
    Seq<ForModel>,
    Seq<Seq<char>>,
    bool,
) {
    if fors.len() > 0 {
        let f = fors.last();
        let new = crate::turtle::clamp_i64(f.current + f.step);
        if new <= f.limit {
            (
                vars.insert(f.var, dec_int(new as int)),
                fors.drop_last().push(ForModel { current: new, ..f }),
                seq!["NEXT "@ + f.var + " = "@ + dec_int(new as int)],
                true,
            )
        } else {
            (vars, fors.drop_last(), seq!["END FOR "@ + f.var], false)
        }
    } else {
        (vars, fors, Seq::empty(), false)
    }
}

/// What `MAKE` does: the text between the first two quotes names the
/// variable, what follows the second quote is its value.
pub open spec fn make_parts(vars: Map<Seq<char>, Seq<char>>, rest: Seq<char>) -> (
    Map<Seq<char>, Seq<char>>,
    Seq<Seq<char>>,
) {
    match crate::text::find_char_rec(rest, '"') {
        Some(q1) => match crate::text::find_char_rec(rest.skip(q1 + 1), '"') {
            Some(q2) => {
                let name = trim_spec(rest.subrange(q1 + 1, q1 + 1 + q2));
                let value = trim_spec(rest.skip(q1 + 1 + q2 + 1));
                (vars.insert(name, value), seq![name + " = \""@ + value + "\""@])
            },
            None => (vars, Seq::empty()),
        },
        None => (vars, Seq::empty()),
    }
}

/// What `REPEAT` does: a count, a space and one inline command, run that
/// many times.
pub open spec fn repeat_parts(vars: Map<Seq<char>, Seq<char>>, rest: Seq<char>) -> (
    Map<Seq<char>, Seq<char>>,
    Seq<Seq<char>>,
) {
    match crate::text::find_char_rec(rest, ' ') {
        Some(sp) => match parse_u32_spec(trim_spec(rest.take(sp))) {
            Some(cnt) => {
                let ds = repeat_cmd(vars, trim_spec(rest.skip(sp + 1)), cnt as nat);
                (ds.vars, ds.out)
            },
            None => (vars, Seq::empty()),
        },
        None => (vars, Seq::empty()),
    }
}

/// Cursor advanced by one, with `emits` appended to the transcript.
pub open spec fn adv(s: BasicState, emits: Seq<Seq<char>>) -> BasicState {
    BasicState { cur: s.cur + 1, out: s.out + emits, ..s }
}

/// Cursor advanced by one, with a store-and-transcript effect applied.
pub open spec fn adv_with(s: BasicState, ds: crate::session::DialectStep) -> BasicState {
    BasicState { cur: s.cur + 1, out: s.out + ds.out, vars: ds.vars, ..s }
}

/// One execution step of the BASIC machine: the current line, classified by
/// first matching form, applied to the state. Meaningful when the machine
/// is not done.
pub open spec fn basic_step(s: BasicState) -> BasicState {
    let text = s.lines[s.cur].text;
    let u = crate::text::upper_spec(text);
    if starts_with_spec(u, "PRINT"@) || starts_with_spec(u, "?"@) {
        let arg = if starts_with_spec(u, "?"@) {
            skip_spec(text, 1)
        } else {
            skip_spec(text, 6)
        };
        adv(s, seq![print_line(s.vars, trim_spec(arg))])
    } else if starts_with_spec(u, "LET "@) {
        adv_with(s, let_effect(s.vars, skip_spec(text, 4)))
    } else if starts_with_spec(u, "INPUT"@) {
        let sm = input_effect(skip_spec(text, 6));
        BasicState {
            cur: s.cur + 1,
            out: s.out + seq![sm.prompt + " "@],
            susp: Some(sm),
            ..s
        }
    } else if starts_with_spec(u, "IF "@) {
        match crate::text::find_sub_rec(u, " THEN "@) {
            Some(tp) => {
                let lo = if tp < 3 {
                    tp
                } else {
                    3
                };
                if eval_cond(s.vars, text.subrange(lo, tp)) {
                    let then_part = skip_spec(text, tp + 6);
                    match parse_u32_spec(trim_spec(then_part)) {
                        Some(n) => match find_label(s.lines, n as int) {
                            Some(p) => BasicState { cur: p, ..s },
                            None => adv(s, Seq::empty()),
                        },
                        None => adv_with(s, inline_cmd(s.vars, trim_spec(then_part))),
                    }
                } else {
                    adv(s, Seq::empty())
                }
            },
            None => adv(s, Seq::empty()),
        }
    } else if starts_with_spec(u, "GOTO "@) {
        match parse_u32_spec(trim_spec(skip_spec(text, 5))) {
            Some(n) => match find_label(s.lines, n as int) {
                Some(p) => BasicState { cur: p, ..s },
                None => adv(s, Seq::empty()),
            },
            None => adv(s, Seq::empty()),
        }
    } else if starts_with_spec(u, "GOSUB "@) {
        match parse_u32_spec(trim_spec(skip_spec(text, 6))) {
            Some(n) => {
                let g = s.gosub.push(s.cur);
                match find_label(s.lines, n as int) {
                    Some(p) => BasicState { cur: p, gosub: g, ..s },
                    None => BasicState { cur: s.cur + 1, gosub: g, ..s },
                }
            },
            None => adv(s, Seq::empty()),
        }
    } else if u == "RETURN"@ {
        if s.gosub.len() > 0 {
            BasicState { cur: s.gosub.last() + 1, gosub: s.gosub.drop_last(), ..s }
        } else {
            adv(s, Seq::empty())
        }
    } else if starts_with_spec(u, "FOR "@) {
        let p = for_parts(s.vars, s.fors, skip_spec(text, 4));
        BasicState { cur: s.cur + 1, out: s.out + p.2, vars: p.0, fors: p.1, ..s }
    } else if u == "NEXT"@ {
        let p = next_parts(s.vars, s.fors);
        BasicState {
            cur: if p.3 {
                s.cur
            } else {
                s.cur + 1
            },
            out: s.out + p.2,
            vars: p.0,
            fors: p.1,
            ..s
        }
    } else if starts_with_spec(u, "WHILE "@) {
        if !eval_cond(s.vars, skip_spec(text, 6)) {
            BasicState { cur: skip_wend(s.lines, s.cur, 1) + 1, ..s }
        } else {
            adv(s, Seq::empty())
        }
    } else if u == "WEND"@ {
        let wi = find_while(s.lines, s.cur, 1);
        if wi < s.cur && 0 <= wi < s.lines.len() && starts_with_spec(
            crate::text::upper_spec(s.lines[wi].text),
            "WHILE "@,
        ) && eval_cond(s.vars, skip_spec(s.lines[wi].text, 6)) {
            BasicState { cur: wi, ..s }
        } else {
            adv(s, Seq::empty())
        }
    } else if starts_with_spec(u, "CLS"@) {
        BasicState { cur: s.cur + 1, out: seq!["Screen cleared."@], ..s }
    } else if starts_with_spec(u, "COLOR "@) {
        match crate::text::parse_u8_spec(trim_spec(skip_spec(text, 6))) {
            Some(c) => adv(s, seq!["Color set to "@ + dec_nat(c as int)]),
            None => adv(s, Seq::empty()),
        }
    } else if starts_with_spec(u, "BEEP"@) {
        adv(s, seq!["BEEP!"@])
    } else if starts_with_spec(u, "SOUND "@) {
        adv(s, seq!["Sound: "@ + skip_spec(text, 6)])
    } else if starts_with_spec(text, "T:"@) {
        adv(s, seq!["QUESTION: "@ + trim_spec(skip_spec(text, 2))])
    } else if starts_with_spec(text, "A:"@) {
        let a = trim_spec(skip_spec(text, 2));
        let prompt = "(Waiting for user input...)"@;
        BasicState {
            cur: s.cur + 1,
            out: s.out + seq!["ACCEPT: "@ + a, prompt + " "@],
            susp: Some(
                crate::session::SuspModel {
                    prompt,
                    target: if a.len() > 0 {
                        a
                    } else {
                        "INPUT"@
                    },
                },
            ),
            ..s
        }
    } else if starts_with_spec(text, "J:"@) {
        match parse_u32_spec(trim_spec(skip_spec(text, 2))) {
            Some(n) => match find_label(s.lines, n as int) {
                Some(p) => BasicState { cur: p, ..s },
                None => adv(s, Seq::empty()),
            },
            None => adv(s, Seq::empty()),
        }
    } else if starts_with_spec(text, "M:"@) {
        adv(s, seq!["MATCH: "@ + trim_spec(skip_spec(text, 2))])
    } else if starts_with_spec(text, "U:"@) {
        adv(s, seq!["USE: "@ + trim_spec(skip_spec(text, 2))])
    } else if starts_with_spec(text, "Y:"@) {
        adv(s, seq!["YES: "@ + trim_spec(skip_spec(text, 2))])
    } else if starts_with_spec(text, "N:"@) {
        adv(s, seq!["NO: "@ + trim_spec(skip_spec(text, 2))])
    } else if starts_with_spec(u, "FORWARD "@) || starts_with_spec(u, "FD "@) {
        let dstr = if starts_with_spec(u, "FORWARD "@) {
            skip_spec(text, 8)
        } else {
            skip_spec(text, 3)
        };
        match parse_i64_spec(trim_spec(dstr)) {
            Some(d) => BasicState {
                cur: s.cur + 1,
                out: s.out + seq!["Turtle forward "@ + dec_int(d as int)],
                turtle: crate::turtle::forward_model(s.turtle, d as int),
                ..s
            },
            None => adv(s, Seq::empty()),
        }
    } else if starts_with_spec(u, "BACKWARD "@) || starts_with_spec(u, "BK "@) {
        let dstr = if starts_with_spec(u, "BACKWARD "@) {
            skip_spec(text, 9)
        } else {
            skip_spec(text, 3)
        };
        match parse_i64_spec(trim_spec(dstr)) {
            Some(d) => BasicState {
                cur: s.cur + 1,
                out: s.out + seq!["Turtle backward "@ + dec_int(d as int)],
                turtle: crate::turtle::forward_model(s.turtle, -(d as int)),
                ..s
            },
            None => adv(s, Seq::empty()),
        }
    } else if starts_with_spec(u, "RIGHT "@) || starts_with_spec(u, "RT "@) {
        let astr = if starts_with_spec(u, "RIGHT "@) {
            skip_spec(text, 6)
        } else {
            skip_spec(text, 3)
        };
        match parse_i64_spec(trim_spec(astr)) {
            Some(a) => BasicState {
                cur: s.cur + 1,
                out: s.out + seq!["Turtle right "@ + dec_int(a as int)],
                turtle: crate::turtle::turn_model(s.turtle, a as int),
                ..s
            },
            None => adv(s, Seq::empty()),
        }
    } else if starts_with_spec(u, "LEFT "@) || starts_with_spec(u, "LT "@) {
        let astr = if starts_with_spec(u, "LEFT "@) {
            skip_spec(text, 5)
        } else {
            skip_spec(text, 3)
        };
        match parse_i64_spec(trim_spec(astr)) {
            Some(a) => BasicState {
                cur: s.cur + 1,
                out: s.out + seq!["Turtle left "@ + dec_int(a as int)],
                turtle: crate::turtle::turn_model(s.turtle, -(a as int)),
                ..s
            },
            None => adv(s, Seq::empty()),
        }
    } else if u == "PENUP"@ || u == "PU"@ {
        BasicState {
            cur: s.cur + 1,
            out: s.out + seq!["Pen up"@],
            turtle: crate::turtle::pen_model(s.turtle, false),
            ..s
        }
    } else if u == "PENDOWN"@ || u == "PD"@ {
        BasicState {
            cur: s.cur + 1,
            out: s.out + seq!["Pen down"@],
            turtle: crate::turtle::pen_model(s.turtle, true),
            ..s
        }
    } else if u == "HOME"@ {
        BasicState {
            cur: s.cur + 1,
            out: s.out + seq!["Turtle home"@],
            turtle: crate::turtle::home_model(s.turtle),
            ..s
        }
    } else if u == "CLEARSCREEN"@ || u == "CS"@ {
        BasicState {
            cur: s.cur + 1,
            out: s.out + seq!["Screen cleared"@],
            turtle: crate::turtle::clear_model(s.turtle),
            ..s
        }
    } else if starts_with_spec(u, "SETPENCOLOR "@) || starts_with_spec(u, "SETPC "@) {
        let arg = if starts_with_spec(u, "SETPENCOLOR "@) {
            skip_spec(text, 12)
        } else {
            skip_spec(text, 6)
        };
        adv(s, seq!["Pen color set to "@ + arg])
    } else if starts_with_spec(u, "MAKE "@) {
        let p = make_parts(s.vars, skip_spec(text, 5));
        BasicState { cur: s.cur + 1, out: s.out + p.1, vars: p.0, ..s }
    } else if starts_with_spec(u, "REPEAT "@) {
        let p = repeat_parts(s.vars, skip_spec(text, 7));
        BasicState { cur: s.cur + 1, out: s.out + p.1, vars: p.0, ..s }
    } else if text.len() > 0 {
        adv(s, seq!["Unknown command: "@ + text])
    } else {
        adv(s, Seq::empty())
    }
}

/// Up to `fuel` machine steps, stopping early when execution ends. The fuel
/// stands for the host's external stop affordance: a program that jumps
/// backward without bound runs until the budget is spent.
pub open spec fn run_fuel(s: BasicState, fuel: nat) -> BasicState
    decreases fuel,
{
    if fuel == 0 || basic_done(s) {
        s
    } else {
        run_fuel(basic_step(s), (fuel - 1) as nat)
    }
}

// --- executable command handlers -------------------------------------------

/// What `PRINT` emits, as executable code.
fn print_line_exec(vars: &crate::vars::StrMap<Vec<char>>, args: &Vec<char>) -> (r: Vec<char>)
    ensures
        r@ == print_line(vars@, args@),
{
    let t = trim(args);
    if t.len() == 0 {
        Vec::new()
    } else {
        match crate::text::quoted_between_exec(args, '"') {
            Some(c) => c,
            None => {
                proof {
                    assert(t.deep_view() =~= t@);
                }
                match vars.get(&t) {
                    Some(v) => {
                        proof {
                            assert(v.deep_view() =~= v@);
                        }
                        crate::text::copy_chars(v)
                    },
                    None => crate::text::concat_chars(&chars_of("Undefined variable: "), &t),
                }
            },
        }
    }
}

/// What `LET` does, as executable code: bindings written, the report line
/// appended.
fn let_effect_exec(
    vars: &mut crate::vars::StrMap<Vec<char>>,
    args: &Vec<char>,
    out: &mut Vec<Vec<char>>,
)
    ensures
        ({
            let e = let_effect(old(vars)@, args@);
            &&& final(out).deep_view() == old(out).deep_view() + e.out
            &&& final(vars)@ == e.vars
        }),
{
    let ghost e = let_effect(old(vars)@, args@);
    match find_char(args, '=') {
        Some(eq) => {
            proof {
                crate::text::lemma_find_char_rec_some(args@, '=', eq as int);
                assert(args@.subrange(0, eq as int) =~= args@.take(eq as int));
                assert(skip_spec(args@, eq + 1) =~= args@.skip(eq + 1));
            }
            let n = args.len();
            proof {
                assert(eq < n);
            }
            let var_part = trim(&subrange_vec(args, 0, eq));
            let value = trim(&skip_chars(args, eq + 1));
            let toks = crate::text::split_ws(&var_part);
            if toks.len() > 0 {
                let name = crate::text::copy_chars(&toks[toks.len() - 1]);
                proof {
                    let ts = crate::text::tokens_spec(var_part@);
                    assert(toks@[toks@.len() - 1].deep_view() =~= toks@[toks@.len() - 1]@);
                    assert(name@ == ts.last());
                }
                let m0 = crate::text::copy_chars(&name);
                let m1 = crate::text::concat_chars(&m0, &chars_of(" = "));
                let msg = crate::text::concat_chars(&m1, &value);
                crate::text::push_line(out, msg);
                let ghost nd = name@;
                let ghost vd = value@;
                proof {
                    assert(name.deep_view() =~= nd);
                    assert(value.deep_view() =~= vd);
                }
                vars.set(name, value);
                proof {
                    assert(final(out).deep_view() =~= old(out).deep_view() + e.out);
                }
            } else {
                proof {
                    assert(old(out).deep_view() + e.out =~= old(out).deep_view());
                }
            }
        },
        None => {
            proof {
                crate::text::lemma_find_char_rec_none(args@, '=');
                assert(old(out).deep_view() + e.out =~= old(out).deep_view());
            }
        },
    }
}

/// Condition evaluation, as executable code.
fn eval_cond_exec(vars: &crate::vars::StrMap<Vec<char>>, cond: &Vec<char>) -> (r: bool)
    ensures
        r == eval_cond(vars@, cond@),
{
    proof {
        reveal_strlit("= ");
    }
    match crate::text::find_sub_at(cond, &chars_of("= ")) {
        Some(i) => {
            let n = cond.len();
            proof {
                crate::text::lemma_find_sub_rec_props(cond@, "= "@);
                assert(i + 2 <= n);
            }
            let rest = skip_chars(cond, i + 2);
            proof {
                assert(rest@ =~= cond@.skip(i + 2));
            }
            match crate::text::find_sub_at(&rest, &chars_of("= ")) {
                Some(_) => true,
                None => {
                    let left = trim(&subrange_vec(cond, 0, i));
                    proof {
                        assert(cond@.subrange(0, i as int) =~= cond@.take(i as int));
                        assert(left.deep_view() =~= left@);
                    }
                    let right = trim(&rest);
                    match vars.get(&left) {
                        Some(lv) => {
                            proof {
                                assert(lv.deep_view() =~= lv@);
                            }
                            crate::text::eq_chars(lv, &right)
                        },
                        None => true,
                    }
                },
            }
        },
        None => true,
    }
}

/// The inline `PRINT`/`LET` command, as executable code.
fn inline_cmd_exec(
    vars: &mut crate::vars::StrMap<Vec<char>>,
    cmd: &Vec<char>,
    out: &mut Vec<Vec<char>>,
)
    ensures
        ({
            let e = inline_cmd(old(vars)@, cmd@);
            &&& final(out).deep_view() == old(out).deep_view() + e.out
            &&& final(vars)@ == e.vars
        }),
{
    let ghost e = inline_cmd(old(vars)@, cmd@);
    proof {
        reveal_strlit("PRINT");
        reveal_strlit("LET ");
    }
    let u = crate::text::to_upper(cmd);
    if starts_with(&u, &chars_of("PRINT")) {
        let l = print_line_exec(vars, &skip_chars(cmd, 6));
        crate::text::push_line(out, l);
        proof {
            assert(final(out).deep_view() =~= old(out).deep_view() + e.out);
        }
    } else if starts_with(&u, &chars_of("LET ")) {
        let_effect_exec(vars, &skip_chars(cmd, 4), out);
    } else {
        proof {
            assert(old(out).deep_view() + e.out =~= old(out).deep_view());
        }
    }
}

/// The machine a source text and session start in.
pub open spec fn init_state(
    lines: Seq<LineModel>,
    sess: crate::session::SessionModel,
) -> BasicState {
    BasicState {
        lines,
        cur: 0,
        out: Seq::empty(),
        vars: sess.vars,
        turtle: sess.turtle,
        gosub: Seq::empty(),
        fors: Seq::empty(),
        susp: None,
    }
}

/// The call stack as contracts see it.
pub open spec fn gosub_view(s: Seq<usize>) -> Seq<int> {
    s.map_values(|x: usize| x as int)
}

/// The machine state assembled from its executable parts.
pub open spec fn pack(
    lines: Seq<LineModel>,
    cur: int,
    out: Seq<Seq<char>>,
    sm: crate::session::SessionModel,
    gosub: Seq<int>,
    fors: Seq<ForModel>,
) -> BasicState {
    BasicState {
        lines,
        cur,
        out,
        vars: sm.vars,
        turtle: sm.turtle,
        gosub,
        fors,
        susp: sm.suspension,
    }
}


/// `FOR`, as executable code.
fn for_exec(
    vars: &mut crate::vars::StrMap<Vec<char>>,
    fors: &mut Vec<ForFrame>,
    args: &Vec<char>,
    out: &mut Vec<Vec<char>>,
)
    ensures
        ({
            let p = for_parts(old(vars)@, old(fors).deep_view(), args@);
            &&& final(vars)@ == p.0
            &&& final(fors).deep_view() == p.1
            &&& final(out).deep_view() == old(out).deep_view() + p.2
        }),
{
    let ghost p = for_parts(old(vars)@, old(fors).deep_view(), args@);
    let toks = crate::text::split_ws(args);
    proof {
        if toks@.len() >= 5 {
            assert(toks@[0].deep_view() =~= toks@[0]@);
            assert(toks@[1].deep_view() =~= toks@[1]@);
            assert(toks@[2].deep_view() =~= toks@[2]@);
            assert(toks@[3].deep_view() =~= toks@[3]@);
            assert(toks@[4].deep_view() =~= toks@[4]@);
        }
    }
    if toks.len() >= 5 && crate::text::eq_chars(&toks[1], &chars_of("=")) && crate::text::eq_chars(
        &toks[3],
        &chars_of("TO"),
    ) {
        match (parse_i64_chars(&toks[2]), parse_i64_chars(&toks[4])) {
            (Some(st), Some(en)) => {
                let name = crate::text::copy_chars(&toks[0]);
                let stc = crate::text::i64_to_chars(st);
                let m0 = chars_of("FOR ");
                let m1 = crate::text::concat_chars(&m0, &name);
                let m2 = crate::text::concat_chars(&m1, &chars_of(" = "));
                let m3 = crate::text::concat_chars(&m2, &stc);
                let m4 = crate::text::concat_chars(&m3, &chars_of(" TO "));
                let msg = crate::text::concat_chars(&m4, &crate::text::i64_to_chars(en));
                crate::text::push_line(out, msg);
                let vname = crate::text::copy_chars(&name);
                let ghost vd = vname@;
                let ghost sd = stc@;
                proof {
                    assert(vname.deep_view() =~= vd);
                    assert(stc.deep_view() =~= sd);
                }
                vars.set(vname, stc);
                let ghost f0 = fors.deep_view();
                let frame = ForFrame { var: name, current: st, limit: en, step: 1 };
                let ghost fd = frame.deep_view();
                fors.push(frame);
                proof {
                    assert(fors.deep_view() =~= f0.push(fd));
                    assert(final(out).deep_view() =~= old(out).deep_view() + p.2);
                }
            },
            _ => {
                proof {
                    assert(old(out).deep_view() + p.2 =~= old(out).deep_view());
                }
            },
        }
    } else {
        proof {
            assert(old(out).deep_view() + p.2 =~= old(out).deep_view());
        }
    }
}

/// `NEXT`, as executable code; true means the cursor stays in place.
fn next_exec(
    vars: &mut crate::vars::StrMap<Vec<char>>,
    fors: &mut Vec<ForFrame>,
    out: &mut Vec<Vec<char>>,
) -> (stay: bool)
    ensures
        ({
            let p = next_parts(old(vars)@, old(fors).deep_view());
            &&& final(vars)@ == p.0
            &&& final(fors).deep_view() == p.1
            &&& final(out).deep_view() == old(out).deep_view() + p.2
            &&& stay == p.3
        }),
{
    let ghost p = next_parts(old(vars)@, old(fors).deep_view());
    match fors.pop() {
        Some(f) => {
            proof {
                assert(fors.deep_view() =~= old(fors).deep_view().drop_last());
                assert(f.deep_view() == old(fors).deep_view().last());
            }
            let sum: i128 = (f.current as i128) + (f.step as i128);
            let new: i64 = if sum > i64::MAX as i128 {
                i64::MAX
            } else if sum < i64::MIN as i128 {
                i64::MIN
            } else {
                sum as i64
            };
            if new <= f.limit {
                let newc = crate::text::i64_to_chars(new);
                let m0 = chars_of("NEXT ");
                let m1 = crate::text::concat_chars(&m0, &f.var);
                let m2 = crate::text::concat_chars(&m1, &chars_of(" = "));
                let msg = crate::text::concat_chars(&m2, &newc);
                crate::text::push_line(out, msg);
                let vname = crate::text::copy_chars(&f.var);
                let ghost vd = vname@;
                let ghost nd = newc@;
                proof {
                    assert(vname.deep_view() =~= vd);
                    assert(newc.deep_view() =~= nd);
                }
                vars.set(vname, newc);
                let ghost f1 = fors.deep_view();
                let frame = ForFrame { var: f.var, current: new, limit: f.limit, step: f.step };
                let ghost fd = frame.deep_view();
                fors.push(frame);
                proof {
                    assert(fors.deep_view() =~= f1.push(fd));
                    assert(final(out).deep_view() =~= old(out).deep_view() + p.2);
                }
                true
            } else {
                let m0 = chars_of("END FOR ");
                let msg = crate::text::concat_chars(&m0, &f.var);
                crate::text::push_line(out, msg);
                proof {
                    assert(final(out).deep_view() =~= old(out).deep_view() + p.2);
                }
                false
            }
        },
        None => {
            proof {
                assert(old(out).deep_view() + p.2 =~= old(out).deep_view());
            }
            false
        },
    }
}

/// `MAKE`, as executable code.
fn make_exec(
    vars: &mut crate::vars::StrMap<Vec<char>>,
    rest: &Vec<char>,
    out: &mut Vec<Vec<char>>,
)
    ensures
        ({
            let p = make_parts(old(vars)@, rest@);
            &&& final(vars)@ == p.0
            &&& final(out).deep_view() == old(out).deep_view() + p.1
        }),
{
    let ghost p = make_parts(old(vars)@, rest@);
    match crate::text::find_char(rest, '\"') {
        Some(q1) => {
            proof {
                crate::text::lemma_find_char_rec_some(rest@, '\"', q1 as int);
            }
            let rn = rest.len();
            proof {
                assert(q1 < rn);
            }
            let rest2 = skip_chars(rest, q1 + 1);
            proof {
                assert(rest2@ =~= rest@.skip(q1 + 1));
            }
            match crate::text::find_char(&rest2, '\"') {
                Some(q2) => {
                    proof {
                        crate::text::lemma_find_char_rec_some(rest2@, '\"', q2 as int);
                        assert(q1 + 1 + q2 < rn);
                        assert(skip_spec(rest@, q1 + 1 + q2 + 1) =~= rest@.skip(q1 + 1 + q2 + 1));
                    }
                    let name = trim(&subrange_vec(rest, q1 + 1, q1 + 1 + q2));
                    let value = trim(&skip_chars(rest, q1 + 1 + q2 + 1));
                    let m0 = crate::text::copy_chars(&name);
                    let m1 = crate::text::concat_chars(&m0, &chars_of(" = \""));
                    let m2 = crate::text::concat_chars(&m1, &value);
                    let msg = crate::text::concat_chars(&m2, &chars_of("\""));
                    crate::text::push_line(out, msg);
                    let ghost nd = name@;
                    let ghost vd = value@;
                    proof {
                        assert(name.deep_view() =~= nd);
                        assert(value.deep_view() =~= vd);
                    }
                    vars.set(name, value);
                    proof {
                        assert(final(out).deep_view() =~= old(out).deep_view() + p.1);
                    }
                },
                None => {
                    proof {
                        crate::text::lemma_find_char_rec_none(rest2@, '\"');
                        assert(old(out).deep_view() + p.1 =~= old(out).deep_view());
                    }
                },
            }
        },
        None => {
            proof {
                crate::text::lemma_find_char_rec_none(rest@, '\"');
                assert(old(out).deep_view() + p.1 =~= old(out).deep_view());
            }
        },
    }
}

/// `REPEAT`, as executable code.
fn repeat_exec(
    vars: &mut crate::vars::StrMap<Vec<char>>,
    rest: &Vec<char>,
    out: &mut Vec<Vec<char>>,
)
    ensures
        ({
            let p = repeat_parts(old(vars)@, rest@);
            &&& final(vars)@ == p.0
            &&& final(out).deep_view() == old(out).deep_view() + p.1
        }),
{
    let ghost p = repeat_parts(old(vars)@, rest@);
    match crate::text::find_char(rest, ' ') {
        Some(sp) => {
            proof {
                crate::text::lemma_find_char_rec_some(rest@, ' ', sp as int);
            }
            let rn = rest.len();
            proof {
                assert(sp < rn);
                assert(rest@.subrange(0, sp as int) =~= rest@.take(sp as int));
            }
            match parse_u32_chars(&trim(&subrange_vec(rest, 0, sp))) {
                Some(cnt) => {
                    proof {
                        assert(skip_spec(rest@, sp + 1 as int) =~= rest@.skip(sp + 1));
                    }
                    let cmd = trim(&skip_chars(rest, sp + 1));
                    let ghost vars0 = vars@;
                    let ghost out0 = out.deep_view();
                    let mut k: u32 = 0;
                    proof {
                        assert(out.deep_view().skip(out0.len() as int)
                            =~= Seq::<Seq<char>>::empty());
                        assert(out.deep_view().take(out0.len() as int) =~= out0);
                        assert(repeat_cmd(vars0, cmd@, cnt as nat).out
                            =~= Seq::<Seq<char>>::empty() + repeat_cmd(
                            vars0,
                            cmd@,
                            cnt as nat,
                        ).out);
                    }
                    while k < cnt
                        invariant
                            k <= cnt,
                            ({
                                let full = repeat_cmd(vars0, cmd@, cnt as nat);
                                let rem = repeat_cmd(vars@, cmd@, (cnt - k) as nat);
                                &&& full.out == out.deep_view().skip(out0.len() as int) + rem.out
                                &&& full.vars == rem.vars
                                &&& out.deep_view().len() >= out0.len()
                                &&& out.deep_view().take(out0.len() as int) == out0
                            }),
                        decreases cnt - k,
                    {
                        let ghost before = out.deep_view();
                        let ghost vars_b = vars@;
                        let ghost emitted_b = before.skip(out0.len() as int);
                        inline_cmd_exec(vars, &cmd, out);
                        proof {
                            let e = inline_cmd(vars_b, cmd@);
                            let r2 = repeat_cmd(e.vars, cmd@, (cnt - k - 1) as nat);
                            assert(out.deep_view().skip(out0.len() as int) =~= emitted_b + e.out);
                            assert(out.deep_view().take(out0.len() as int) =~= out0);
                            assert(repeat_cmd(vars_b, cmd@, (cnt - k) as nat).out == e.out
                                + r2.out);
                            assert(emitted_b + (e.out + r2.out) =~= (emitted_b + e.out) + r2.out);
                        }
                        k = k + 1;
                    }
                    proof {
                        let full = repeat_cmd(vars0, cmd@, cnt as nat);
                        assert(repeat_cmd(vars@, cmd@, 0).out =~= Seq::<Seq<char>>::empty());
                        assert(full.out =~= out.deep_view().skip(out0.len() as int));
                        assert(out.deep_view() =~= out0 + full.out);
                    }
                },
                None => {
                    proof {
                        assert(old(out).deep_view() + p.1 =~= old(out).deep_view());
                    }
                },
            }
        },
        None => {
            proof {
                crate::text::lemma_find_char_rec_none(rest@, ' ');
                assert(old(out).deep_view() + p.1 =~= old(out).deep_view());
            }
        },
    }
}

/// The forward scan from a false `WHILE`, as executable code.
fn scan_wend_exec(lines: &Vec<ProgLine>, cur: usize) -> (r: usize)
    requires
        cur < lines@.len(),
    ensures
        r as int == skip_wend(lines.deep_view(), cur as int, 1),
        cur <= r < lines@.len(),
{
    let ghost linesd = lines.deep_view();
    let n = lines.len();
    let mut k: usize = cur;
    let mut nest: u64 = 1;
    while k + 1 < n && nest > 0
        invariant
            n == lines@.len(),
            linesd == lines.deep_view(),
            cur <= k < n,
            nest as int <= 1 + k - cur,
            skip_wend(linesd, cur as int, 1) == skip_wend(linesd, k as int, nest as int),
        decreases n - k,
    {
        k = k + 1;
        proof {
            assert(linesd[k as int].text == lines@[k as int].text@);
        }
        let u2 = crate::text::to_upper(&lines[k].text);
        if starts_with(&u2, &chars_of("WHILE ")) {
            nest = nest + 1;
        } else if eq_upper(&u2, "WEND") {
            nest = nest - 1;
        }
    }
    k
}

/// The backward scan from a `WEND`, as executable code.
fn scan_while_exec(lines: &Vec<ProgLine>, cur: usize) -> (r: usize)
    requires
        cur < lines@.len(),
    ensures
        r as int == find_while(lines.deep_view(), cur as int, 1),
        r <= cur,
{
    let ghost linesd = lines.deep_view();
    let n = lines.len();
    let mut wi: usize = cur;
    let mut nest: u64 = 1;
    while wi > 0 && nest > 0
        invariant
            n == lines@.len(),
            linesd == lines.deep_view(),
            wi <= cur < n,
            nest as int <= 1 + cur - wi,
            find_while(linesd, cur as int, 1) == find_while(linesd, wi as int, nest as int),
        decreases wi,
    {
        proof {
            assert(linesd[wi - 1].text == lines@[wi - 1].text@);
        }
        let u2 = crate::text::to_upper(&lines[wi - 1].text);
        if eq_upper(&u2, "WEND") {
            nest = nest + 1;
            wi = wi - 1;
        } else if starts_with(&u2, &chars_of("WHILE ")) {
            nest = nest - 1;
            wi = wi - 1;
        } else {
            wi = wi - 1;
        }
    }
    wi
}

/// One machine step, on the executable state: classifies the current line
/// and applies it, returning the next cursor.
#[verifier::rlimit(100)]
#[verifier::spinoff_prover]
fn step_basic(
    lines: &Vec<ProgLine>,
    cur: usize,
    session: &mut Session,
    out: &mut Vec<Vec<char>>,
    gosub: &mut Vec<usize>,
    fors: &mut Vec<ForFrame>,
) -> (ncur: usize)
    requires
        cur < lines@.len(),
        old(session)@.suspension is None,
        forall|m: int| 0 <= m < old(gosub)@.len() ==> old(gosub)@[m] < lines@.len(),
    ensures
        ncur <= lines@.len(),
        forall|m: int| 0 <= m < final(gosub)@.len() ==> final(gosub)@[m] < lines@.len(),
        pack(
            lines.deep_view(),
            ncur as int,
            final(out).deep_view(),
            final(session)@,
            gosub_view(final(gosub)@),
            final(fors).deep_view(),
        ) == basic_step(
            pack(
                lines.deep_view(),
                cur as int,
                old(out).deep_view(),
                old(session)@,
                gosub_view(old(gosub)@),
                old(fors).deep_view(),
            ),
        ),
{
    let ghost pre = pack(
        lines.deep_view(),
        cur as int,
        old(out).deep_view(),
        old(session)@,
        gosub_view(old(gosub)@),
        old(fors).deep_view(),
    );
    let n = lines.len();
    let text = crate::text::copy_chars(&lines[cur].text);
    proof {
        assert(lines.deep_view()[cur as int].text == lines@[cur as int].text@);
    }
    let u = crate::text::to_upper(&text);
    let mut ncur: usize = cur + 1;
    if starts_with(&u, &chars_of("PRINT")) || starts_with(&u, &chars_of("?")) {
        let arg = if starts_with(&u, &chars_of("?")) {
            skip_chars(&text, 1)
        } else {
            skip_chars(&text, 6)
        };
        let l = print_line_exec(&session.vars, &trim(&arg));
        crate::text::push_line(out, l);
    } else if starts_with(&u, &chars_of("LET ")) {
        let_effect_exec(&mut session.vars, &skip_chars(&text, 4), out);
    } else if starts_with(&u, &chars_of("INPUT")) {
        let args = skip_chars(&text, 6);
        let prompt = match crate::text::quoted_between_exec(&args, '"') {
            Some(p) => p,
            None => chars_of("Input:"),
        };
        let target = match crate::text::first_plain_token_of(&args) {
            Some(t) => t,
            None => chars_of("INPUT"),
        };
        let l = crate::text::concat_chars(&prompt, &chars_of(" "));
        crate::text::push_line(out, l);
        session.suspension = Some(crate::session::Suspension { prompt, target });
    } else if starts_with(&u, &chars_of("IF ")) {
        proof {
            reveal_strlit(" THEN ");
        }
        match crate::text::find_sub_at(&u, &chars_of(" THEN ")) {
            Some(tp) => {
                let un = u.len();
                proof {
                    crate::text::lemma_find_sub_rec_props(u@, " THEN "@);
                    assert(tp + 6 <= un);
                    assert(u@.len() == text@.len());
                }
                let lo = if tp < 3 {
                    tp
                } else {
                    3
                };
                let cond = subrange_vec(&text, lo, tp);
                if eval_cond_exec(&session.vars, &cond) {
                    let tt = trim(&skip_chars(&text, tp + 6));
                    match parse_u32_chars(&tt) {
                        Some(nv) => {
                            match find_label_exec(lines, nv as u64) {
                                Some(p) => {
                                    ncur = p;
                                },
                                None => (),
                            }
                        },
                        None => {
                            inline_cmd_exec(&mut session.vars, &tt, out);
                        },
                    }
                }
            },
            None => (),
        }
    } else if starts_with(&u, &chars_of("GOTO ")) {
        match parse_u32_chars(&trim(&skip_chars(&text, 5))) {
            Some(nv) => {
                match find_label_exec(lines, nv as u64) {
                    Some(p) => {
                        ncur = p;
                    },
                    None => (),
                }
            },
            None => (),
        }
    } else if starts_with(&u, &chars_of("GOSUB ")) {
        match parse_u32_chars(&trim(&skip_chars(&text, 6))) {
            Some(nv) => {
                let ghost g0 = gosub@;
                gosub.push(cur);
                proof {
                    assert(gosub_view(gosub@) =~= gosub_view(g0).push(cur as int));
                }
                match find_label_exec(lines, nv as u64) {
                    Some(p) => {
                        ncur = p;
                    },
                    None => (),
                }
            },
            None => (),
        }
    } else if eq_upper(&u, "RETURN") {
        match gosub.pop() {
            Some(r) => {
                proof {
                    assert(gosub_view(gosub@) =~= gosub_view(old(gosub)@).drop_last());
                    assert(r as int == gosub_view(old(gosub)@).last());
                }
                ncur = r + 1;
            },
            None => (),
        }
    } else if starts_with(&u, &chars_of("FOR ")) {
        for_exec(&mut session.vars, fors, &skip_chars(&text, 4), out);
    } else if eq_upper(&u, "NEXT") {
        let stay = next_exec(&mut session.vars, fors, out);
        if stay {
            ncur = cur;
        }
    } else if starts_with(&u, &chars_of("WHILE ")) {
        if !eval_cond_exec(&session.vars, &skip_chars(&text, 6)) {
            let k = scan_wend_exec(lines, cur);
            ncur = k + 1;
        }
    } else if eq_upper(&u, "WEND") {
        let ghost linesd = lines.deep_view();
        let wi = scan_while_exec(lines, cur);
        if wi < cur {
            proof {
                assert(linesd[wi as int].text == lines@[wi as int].text@);
            }
            let u2 = crate::text::to_upper(&lines[wi].text);
            if starts_with(&u2, &chars_of("WHILE ")) && eval_cond_exec(
                &session.vars,
                &skip_chars(&lines[wi].text, 6),
            ) {
                ncur = wi;
            }
        }
    } else if starts_with(&u, &chars_of("CLS")) {
        out.clear();
        crate::text::push_line(out, chars_of("Screen cleared."));
    } else if starts_with(&u, &chars_of("COLOR ")) {
        match crate::text::parse_u8_chars(&trim(&skip_chars(&text, 6))) {
            Some(c) => {
                let msg = crate::text::concat_chars(
                    &chars_of("Color set to "),
                    &crate::text::u64_to_chars(c as u64),
                );
                crate::text::push_line(out, msg);
            },
            None => (),
        }
    } else if starts_with(&u, &chars_of("BEEP")) {
        crate::text::push_line(out, chars_of("BEEP!"));
    } else if starts_with(&u, &chars_of("SOUND ")) {
        let msg = crate::text::concat_chars(&chars_of("Sound: "), &skip_chars(&text, 6));
        crate::text::push_line(out, msg);
    } else if starts_with(&text, &chars_of("T:")) {
        let msg = crate::text::concat_chars(&chars_of("QUESTION: "), &trim(&skip_chars(&text, 2)));
        crate::text::push_line(out, msg);
    } else if starts_with(&text, &chars_of("A:")) {
        let a = trim(&skip_chars(&text, 2));
        let msg = crate::text::concat_chars(&chars_of("ACCEPT: "), &a);
        crate::text::push_line(out, msg);
        let prompt = chars_of("(Waiting for user input...)");
        let l = crate::text::concat_chars(&prompt, &chars_of(" "));
        crate::text::push_line(out, l);
        let target = if a.len() > 0 {
            a
        } else {
            chars_of("INPUT")
        };
        session.suspension = Some(crate::session::Suspension { prompt, target });
    } else if starts_with(&text, &chars_of("J:")) {
        match parse_u32_chars(&trim(&skip_chars(&text, 2))) {
            Some(nv) => {
                match find_label_exec(lines, nv as u64) {
                    Some(p) => {
                        ncur = p;
                    },
                    None => (),
                }
            },
            None => (),
        }
    } else if starts_with(&text, &chars_of("M:")) {
        let msg = crate::text::concat_chars(&chars_of("MATCH: "), &trim(&skip_chars(&text, 2)));
        crate::text::push_line(out, msg);
    } else if starts_with(&text, &chars_of("U:")) {
        let msg = crate::text::concat_chars(&chars_of("USE: "), &trim(&skip_chars(&text, 2)));
        crate::text::push_line(out, msg);
    } else if starts_with(&text, &chars_of("Y:")) {
        let msg = crate::text::concat_chars(&chars_of("YES: "), &trim(&skip_chars(&text, 2)));
        crate::text::push_line(out, msg);
    } else if starts_with(&text, &chars_of("N:")) {
        let msg = crate::text::concat_chars(&chars_of("NO: "), &trim(&skip_chars(&text, 2)));
        crate::text::push_line(out, msg);
    } else if starts_with(&u, &chars_of("FORWARD ")) || starts_with(&u, &chars_of("FD ")) {
        let dstr = if starts_with(&u, &chars_of("FORWARD ")) {
            skip_chars(&text, 8)
        } else {
            skip_chars(&text, 3)
        };
        match parse_i64_chars(&trim(&dstr)) {
            Some(d) => {
                let msg = crate::text::concat_chars(
                    &chars_of("Turtle forward "),
                    &crate::text::i64_to_chars(d),
                );
                crate::text::push_line(out, msg);
                session.turtle.forward(d);
            },
            None => (),
        }
    } else if starts_with(&u, &chars_of("BACKWARD ")) || starts_with(&u, &chars_of("BK ")) {
        let dstr = if starts_with(&u, &chars_of("BACKWARD ")) {
            skip_chars(&text, 9)
        } else {
            skip_chars(&text, 3)
        };
        match parse_i64_chars(&trim(&dstr)) {
            Some(d) => {
                let msg = crate::text::concat_chars(
                    &chars_of("Turtle backward "),
                    &crate::text::i64_to_chars(d),
                );
                crate::text::push_line(out, msg);
                session.turtle.backward(d);
            },
            None => (),
        }
    } else if starts_with(&u, &chars_of("RIGHT ")) || starts_with(&u, &chars_of("RT ")) {
        let astr = if starts_with(&u, &chars_of("RIGHT ")) {
            skip_chars(&text, 6)
        } else {
            skip_chars(&text, 3)
        };
        match parse_i64_chars(&trim(&astr)) {
            Some(a) => {
                let msg = crate::text::concat_chars(
                    &chars_of("Turtle right "),
                    &crate::text::i64_to_chars(a),
                );
                crate::text::push_line(out, msg);
                session.turtle.right(a);
            },
            None => (),
        }
    } else if starts_with(&u, &chars_of("LEFT ")) || starts_with(&u, &chars_of("LT ")) {
        let astr = if starts_with(&u, &chars_of("LEFT ")) {
            skip_chars(&text, 5)
        } else {
            skip_chars(&text, 3)
        };
        match parse_i64_chars(&trim(&astr)) {
            Some(a) => {
                let msg = crate::text::concat_chars(
                    &chars_of("Turtle left "),
                    &crate::text::i64_to_chars(a),
                );
                crate::text::push_line(out, msg);
                session.turtle.left(a);
            },
            None => (),
        }
    } else if eq_upper(&u, "PENUP") || eq_upper(&u, "PU") {
        crate::text::push_line(out, chars_of("Pen up"));
        session.turtle.pen_up();
    } else if eq_upper(&u, "PENDOWN") || eq_upper(&u, "PD") {
        crate::text::push_line(out, chars_of("Pen down"));
        session.turtle.pen_down();
    } else if eq_upper(&u, "HOME") {
        crate::text::push_line(out, chars_of("Turtle home"));
        session.turtle.home();
    } else if eq_upper(&u, "CLEARSCREEN") || eq_upper(&u, "CS") {
        crate::text::push_line(out, chars_of("Screen cleared"));
        session.turtle.clear_screen();
    } else if starts_with(&u, &chars_of("SETPENCOLOR ")) || starts_with(&u, &chars_of("SETPC ")) {
        let arg = if starts_with(&u, &chars_of("SETPENCOLOR ")) {
            skip_chars(&text, 12)
        } else {
            skip_chars(&text, 6)
        };
        let msg = crate::text::concat_chars(&chars_of("Pen color set to "), &arg);
        crate::text::push_line(out, msg);
    } else if starts_with(&u, &chars_of("MAKE ")) {
        make_exec(&mut session.vars, &skip_chars(&text, 5), out);
    } else if starts_with(&u, &chars_of("REPEAT ")) {
        repeat_exec(&mut session.vars, &skip_chars(&text, 7), out);
    } else if text.len() > 0 {
        let msg = crate::text::concat_chars(&chars_of("Unknown command: "), &text);
        crate::text::push_line(out, msg);
    } else {
    }
    proof {
        assert(pack(
            lines.deep_view(),
            ncur as int,
            out.deep_view(),
            session@,
            gosub_view(gosub@),
            fors.deep_view(),
        ) =~~= basic_step(pre));
    }
    ncur
}

/// Runs BASIC source against the session, for at most `fuel` line steps.
/// The budget stands for the host's external stop affordance (the design
/// accepts unbounded jump loops and leaves stopping to the host): a
/// program that keeps jumping backward uses the whole budget and stops.
pub fn execute_basic(session: &mut Session, source: &Vec<char>, fuel: u64) -> (out: Vec<Vec<char>>)
    requires
        old(session)@.suspension is None,
    ensures
        ({
            let fin = run_fuel(init_state(program_spec(source@), old(session)@), fuel as nat);
            &&& out.deep_view() == fin.out
            &&& final(session)@.vars == fin.vars
            &&& final(session)@.turtle == fin.turtle
            &&& final(session)@.suspension == fin.susp
        }),
{
    let lines = build_program(source);
    let ghost init = init_state(program_spec(source@), old(session)@);
    let mut out: Vec<Vec<char>> = Vec::new();
    let mut gosub: Vec<usize> = Vec::new();
    let mut fors: Vec<ForFrame> = Vec::new();
    let mut cur: usize = 0;
    let mut steps: u64 = 0;
    let n = lines.len();
    proof {
        assert(gosub_view(gosub@) =~= Seq::<int>::empty());
        assert(fors.deep_view() =~= Seq::<ForModel>::empty());
        assert(out.deep_view() =~= Seq::<Seq<char>>::empty());
        assert(pack(
            lines.deep_view(),
            0,
            out.deep_view(),
            session@,
            gosub_view(gosub@),
            fors.deep_view(),
        ) =~~= init);
    }
    while cur < n && steps < fuel && session.suspension.is_none()
        invariant
            n == lines@.len(),
            lines.deep_view() == program_spec(source@),
            init == init_state(program_spec(source@), old(session)@),
            cur <= n,
            steps <= fuel,
            forall|m: int| 0 <= m < gosub@.len() ==> gosub@[m] < lines@.len(),
            run_fuel(init, fuel as nat) == run_fuel(
                pack(
                    lines.deep_view(),
                    cur as int,
                    out.deep_view(),
                    session@,
                    gosub_view(gosub@),
                    fors.deep_view(),
                ),
                (fuel - steps) as nat,
            ),
        decreases fuel - steps,
    {
        let ghost st = pack(
            lines.deep_view(),
            cur as int,
            out.deep_view(),
            session@,
            gosub_view(gosub@),
            fors.deep_view(),
        );
        proof {
            assert(!basic_done(st));
        }
        cur = step_basic(&lines, cur, session, &mut out, &mut gosub, &mut fors);
        steps = steps + 1;
        proof {
            assert(run_fuel(st, (fuel - steps + 1) as nat) == run_fuel(
                basic_step(st),
                (fuel - steps) as nat,
            ));
        }
    }
    proof {
        let st = pack(
            lines.deep_view(),
            cur as int,
            out.deep_view(),
            session@,
            gosub_view(gosub@),
            fors.deep_view(),
        );
        assert(run_fuel(st, (fuel - steps) as nat) == st);
    }
    out
}

fn eq_upper(u: &Vec<char>, lit: &str) -> (r: bool)
    ensures
        r == (u@ == lit@),
{
    crate::text::eq_chars(u, &chars_of(lit))
}

} // verus!
