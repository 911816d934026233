//! Properties that relate several functions of the library, stated and
//! proved over the same specifications the functions' own contracts use.

use vstd::prelude::*;
use crate::basic::{
    BasicState, basic_done, basic_step, find_label, input_effect, print_line, run_fuel,
};
use crate::session::{SessionModel, dispatch_spec, unsupported_msg};
use crate::text::{
    is_ws_char, lemma_find_char_rec_none, lemma_find_char_rec_some, lemma_ws_suffix_len_bound,
    quoted_between, skip_spec, starts_with_spec, trim_spec, upper_spec, ws_prefix_len,
};
use crate::turtle::{
    HOME_X, HOME_Y, TurtleModel, clear_model, cos_milli, forward_model, half_sine_milli,
    home_model, move_delta, norm360, sin_milli,
};

verus! {

/// `u` cannot start with `p` when they differ at a position inside `p`.
proof fn not_prefix(u: Seq<char>, p: Seq<char>, k: int)
    requires
        0 <= k < p.len(),
        k < u.len(),
        u[k] != p[k],
    ensures
        !starts_with_spec(u, p),
{
    if starts_with_spec(u, p) {
        assert(u.take(p.len() as int)[k] == p[k]);
    }
}

/// `PRINT` with a quoted literal emits exactly its contents: for an
/// argument `"x"…` whose literal holds no quote, the emitted line is `x`,
/// whatever the variable store holds.
pub proof fn law_print_quoted(vars: Map<Seq<char>, Seq<char>>, x: Seq<char>, rest: Seq<char>)
    requires
        forall|i: int| 0 <= i < x.len() ==> x[i] != '"',
    ensures
        print_line(vars, seq!['"'] + x + seq!['"'] + rest) == x,
{
    let args = seq!['"'] + x + seq!['"'] + rest;
    assert(args[0] == '"');
    assert(!is_ws_char('"'));
    assert(ws_prefix_len(args) == 0);
    lemma_ws_suffix_len_bound(args, 0);
    assert(trim_spec(args).len() > 0);
    lemma_find_char_rec_some(args, '"', 0);
    let inner = args.skip(1);
    assert(inner[x.len() as int] == '"');
    assert(forall|j: int| 0 <= j < x.len() ==> inner[j] == x[j]);
    lemma_find_char_rec_some(inner, '"', x.len() as int);
    assert(quoted_between(args, '"') == Some(args.subrange(1, 1 + x.len() as int)));
    assert(args.subrange(1, 1 + x.len() as int) =~= x);
}

/// `PRINT` of an unbound name always reports it as undefined, with the
/// name echoed exactly.
pub proof fn law_print_undefined(vars: Map<Seq<char>, Seq<char>>, name: Seq<char>)
    requires
        name.len() > 0,
        trim_spec(name) == name,
        forall|i: int| 0 <= i < name.len() ==> name[i] != '"',
        !vars.contains_key(name),
    ensures
        print_line(vars, name) == "Undefined variable: "@ + name,
{
    lemma_find_char_rec_none(name, '"');
}

/// A binding is stored verbatim and read back verbatim: after binding
/// `name` to `value`, `PRINT name` emits exactly `value`.
pub proof fn law_bind_then_print(vars: Map<Seq<char>, Seq<char>>, name: Seq<char>, value: Seq<char>)
    requires
        name.len() > 0,
        trim_spec(name) == name,
        forall|i: int| 0 <= i < name.len() ==> name[i] != '"',
    ensures
        print_line(vars.insert(name, value), name) == value,
{
    lemma_find_char_rec_none(name, '"');
}

/// `GOSUB` to a present label pushes the call site and jumps there; every
/// other store is untouched.
pub proof fn law_gosub_jumps(s: BasicState, n: u32, p: int)
    requires
        !basic_done(s),
        starts_with_spec(upper_spec(s.lines[s.cur].text), "GOSUB "@),
        crate::text::parse_u32_spec(trim_spec(skip_spec(s.lines[s.cur].text, 6))) == Some(n),
        find_label(s.lines, n as int) == Some(p),
    ensures
        basic_step(s).cur == p,
        basic_step(s).gosub == s.gosub.push(s.cur),
        basic_step(s).out == s.out,
        basic_step(s).vars == s.vars,
        basic_step(s).turtle == s.turtle,
        basic_step(s).susp == s.susp,
{
    reveal_strlit("GOSUB ");
    reveal_strlit("PRINT");
    reveal_strlit("?");
    reveal_strlit("LET ");
    reveal_strlit("INPUT");
    reveal_strlit("IF ");
    reveal_strlit("GOTO ");
    let u = upper_spec(s.lines[s.cur].text);
    let p6 = "GOSUB "@;
    assert(p6.len() == 6);
    assert(u.take(p6.len() as int) == p6);
    assert(u.take(p6.len() as int)[0] == u[0]);
    assert(u.take(p6.len() as int)[2] == u[2]);
    assert(u[0] == 'G');
    assert(u[2] == 'S');
    not_prefix(u, "PRINT"@, 0);
    not_prefix(u, "?"@, 0);
    not_prefix(u, "LET "@, 0);
    not_prefix(u, "INPUT"@, 0);
    not_prefix(u, "IF "@, 0);
    not_prefix(u, "GOTO "@, 2);
}

/// `RETURN` with a saved call site resumes exactly one line after it,
/// popping the stack; transcript and stores are untouched.
pub proof fn law_return_resumes(s: BasicState)
    requires
        !basic_done(s),
        upper_spec(s.lines[s.cur].text) == "RETURN"@,
        s.gosub.len() > 0,
    ensures
        basic_step(s).cur == s.gosub.last() + 1,
        basic_step(s).gosub == s.gosub.drop_last(),
        basic_step(s).out == s.out,
        basic_step(s).vars == s.vars,
        basic_step(s).turtle == s.turtle,
        basic_step(s).susp == s.susp,
{
    law_return_branch(s);
}

/// `RETURN` with an empty call stack is a no-op: the cursor just moves to
/// the next line and nothing else changes.
pub proof fn law_return_empty_stack(s: BasicState)
    requires
        !basic_done(s),
        upper_spec(s.lines[s.cur].text) == "RETURN"@,
        s.gosub.len() == 0,
    ensures
        basic_step(s).cur == s.cur + 1,
        basic_step(s).gosub == s.gosub,
        basic_step(s).out == s.out,
        basic_step(s).vars == s.vars,
        basic_step(s).turtle == s.turtle,
        basic_step(s).susp == s.susp,
{
    law_return_branch(s);
    assert(basic_step(s).out =~= s.out);
}

/// The `RETURN` classification: none of the earlier forms matches.
proof fn law_return_branch(s: BasicState)
    requires
        !basic_done(s),
        upper_spec(s.lines[s.cur].text) == "RETURN"@,
    ensures
        basic_step(s) == (if s.gosub.len() > 0 {
            BasicState { cur: s.gosub.last() + 1, gosub: s.gosub.drop_last(), ..s }
        } else {
            crate::basic::adv(s, Seq::empty())
        }),
{
    reveal_strlit("RETURN");
    reveal_strlit("PRINT");
    reveal_strlit("?");
    reveal_strlit("LET ");
    reveal_strlit("INPUT");
    reveal_strlit("IF ");
    reveal_strlit("GOTO ");
    reveal_strlit("GOSUB ");
    let u = upper_spec(s.lines[s.cur].text);
    assert(u.len() == 6);
    assert(u[0] == 'R');
    assert(u[2] == 'T');
    not_prefix(u, "PRINT"@, 0);
    not_prefix(u, "?"@, 0);
    not_prefix(u, "LET "@, 0);
    not_prefix(u, "INPUT"@, 0);
    not_prefix(u, "IF "@, 0);
    not_prefix(u, "GOTO "@, 0);
    not_prefix(u, "GOSUB "@, 0);
}

/// `INPUT` suspends execution: the machine records the prompt and target,
/// appends the prompt as the transcript's last line, and is thereby done —
/// no further line executes in this call.
pub proof fn law_input_suspends(s: BasicState)
    requires
        !basic_done(s),
        starts_with_spec(upper_spec(s.lines[s.cur].text), "INPUT"@),
    ensures
        ({
            let sm = input_effect(skip_spec(s.lines[s.cur].text, 6));
            &&& basic_step(s).susp == Some(sm)
            &&& basic_step(s).out == s.out + seq![sm.prompt + " "@]
            &&& basic_step(s).out.last() == sm.prompt + " "@
            &&& basic_done(basic_step(s))
            &&& basic_step(s).vars == s.vars
            &&& basic_step(s).turtle == s.turtle
        }),
{
    reveal_strlit("INPUT");
    reveal_strlit("PRINT");
    reveal_strlit("?");
    reveal_strlit("LET ");
    let u = upper_spec(s.lines[s.cur].text);
    let p5 = "INPUT"@;
    assert(p5.len() == 5);
    assert(u.take(p5.len() as int) == p5);
    assert(u.take(p5.len() as int)[0] == u[0]);
    assert(u[0] == 'I');
    not_prefix(u, "PRINT"@, 0);
    not_prefix(u, "?"@, 0);
    not_prefix(u, "LET "@, 0);
}

/// Whenever a step raises a suspension, the prompt (with its trailing
/// space) stands as the transcript's last line: only the input forms
/// suspend, and each appends its prompt last.
#[verifier::rlimit(60)]
pub proof fn law_step_suspension_prompt(s: BasicState)
    requires
        !basic_done(s),
        s.susp is None,
        basic_step(s).susp is Some,
    ensures
        basic_step(s).out.len() > 0,
        basic_step(s).out.last() == basic_step(s).susp->0.prompt + " "@,
{
}

/// A run that ends suspended shows the prompt as the last transcript
/// line, and executes nothing further: the suspended state is done.
pub proof fn law_run_suspension_prompt(s: BasicState, fuel: nat)
    requires
        s.susp is None,
        run_fuel(s, fuel).susp is Some,
    ensures
        run_fuel(s, fuel).out.len() > 0,
        run_fuel(s, fuel).out.last() == run_fuel(s, fuel).susp->0.prompt + " "@,
        basic_done(run_fuel(s, fuel)),
    decreases fuel,
{
    if fuel == 0 || basic_done(s) {
    } else {
        let s2 = basic_step(s);
        if s2.susp is Some {
            law_step_suspension_prompt(s);
            assert(run_fuel(s2, (fuel - 1) as nat) == s2);
        } else {
            law_run_suspension_prompt(s2, (fuel - 1) as nat);
        }
    }
}

/// A suspended machine stays exactly as it is, whatever budget remains:
/// the run must go back through the resume operation.
pub proof fn law_suspension_halts(s: BasicState, fuel: nat)
    requires
        s.susp is Some,
    ensures
        run_fuel(s, fuel) == s,
{
}

/// Dispatching an unsupported dialect name never mutates the variable
/// store, the turtle pose or the segment log: the session comes back
/// unchanged, with only the explanatory transcript produced.
pub proof fn law_unsupported_dialect(
    sm: SessionModel,
    source: Seq<char>,
    dialect: Seq<char>,
    fuel: nat,
)
    requires
        dialect != "TW BASIC"@,
        dialect != "TW Pascal"@,
        dialect != "TW Prolog"@,
    ensures
        dispatch_spec(sm, source, dialect, fuel).0 == sm,
        dispatch_spec(sm, source, dialect, fuel).1 == seq![unsupported_msg(dialect)],
{
}

/// With the pen down and the heading at zero, a forward move of `d` draws
/// exactly one new segment, from the old position due east to `(x + d, y)`:
/// the fixed-point cosine of zero is exactly one and the sine exactly zero.
pub proof fn law_forward_east(t: TurtleModel, d: int)
    requires
        t.heading == 0,
        t.pen_down,
        0 <= d,
        t.x + d <= i64::MAX,
    ensures
        forward_model(t, d).x == t.x + d,
        forward_model(t, d).y == t.y,
        forward_model(t, d).segments == t.segments.push(
            crate::turtle::Segment { x1: t.x, y1: t.y, x2: (t.x + d) as i64, y2: t.y },
        ),
{
    assert(norm360(0) == 0);
    lemma_trig_zero();
    broadcast use vstd::arithmetic::div_mod::lemma_div_multiples_vanish;

    assert(d * 1000 == 1000 * d) by (nonlinear_arith);
    assert((1000 * d) / 1000 == d);
    assert(move_delta(d, 1000) == d);
    assert(move_delta(d, 0) == 0);
}

/// The fixed-point trigonometry is exact on the axes: cosine 1000 and sine
/// 0 at zero degrees.
proof fn lemma_trig_zero()
    ensures
        cos_milli(0) == 1000,
        sin_milli(0) == 0,
{
    assert(90 * (180 - 90) == 8100);
    assert(4000 * 8100 == 32400000);
    assert(40500 - 8100 == 32400);
    broadcast use vstd::arithmetic::div_mod::lemma_div_multiples_vanish;

    assert(32400 * 1000 == 32400000) by (nonlinear_arith);
    assert((32400 * 1000) / 32400 == 1000);
    assert(half_sine_milli(90) == 1000);
    assert(cos_milli(0) == sin_milli(90));
    assert(0 * (180 - 0) == 0);
    assert(half_sine_milli(0) == 0int / 40500);
    assert(sin_milli(0) == 0);
}

/// `HOME` resets the pose but leaves the segment log untouched.
pub proof fn law_home_keeps_log(t: TurtleModel)
    ensures
        home_model(t).segments == t.segments,
        home_model(t).x == HOME_X,
        home_model(t).y == HOME_Y,
        home_model(t).heading == 0,
        home_model(t).pen_down == t.pen_down,
{
}

/// `CLEARSCREEN` performs the same reset as `HOME` and additionally
/// empties the segment log.
pub proof fn law_clearscreen_resets(t: TurtleModel)
    ensures
        clear_model(t).segments =~= Seq::empty(),
        clear_model(t).x == home_model(t).x,
        clear_model(t).y == home_model(t).y,
        clear_model(t).heading == home_model(t).heading,
        clear_model(t).pen_down == t.pen_down,
{
}

} // verus!
