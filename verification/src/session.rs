//! The shared execution context: the variable store, the turtle engine and
//! the input-suspension record, passed by reference into each dialect
//! interpreter.

use vstd::prelude::*;
use crate::turtle::{Turtle, TurtleModel, initial_turtle};
use crate::vars::StrMap;

verus! {

/// A pending request for external input: the prompt already shown and the
/// variable the answer will be bound to.
pub struct Suspension {
    pub prompt: Vec<char>,
    pub target: Vec<char>,
}

/// The suspension record as contracts see it.
#[verifier::ext_equal]
pub ghost struct SuspModel {
    pub prompt: Seq<char>,
    pub target: Seq<char>,
}

impl View for Suspension {
    type V = SuspModel;

    open spec fn view(&self) -> SuspModel {
        SuspModel { prompt: self.prompt@, target: self.target@ }
    }
}

pub open spec fn susp_view(s: Option<Suspension>) -> Option<SuspModel> {
    match s {
        Some(r) => Some(r@),
        None => None,
    }
}

/// What one dialect pass produces: transcript lines, the new variable
/// bindings, and a suspension if one was raised.
#[verifier::ext_equal]
pub ghost struct DialectStep {
    pub out: Seq<Seq<char>>,
    pub vars: Map<Seq<char>, Seq<char>>,
    pub susp: Option<SuspModel>,
}

/// The session state, shared by every dialect interpreter.
pub struct Session {
    pub vars: StrMap<Vec<char>>,
    pub turtle: Turtle,
    pub suspension: Option<Suspension>,
}

/// The session as contracts see it.
#[verifier::ext_equal]
pub ghost struct SessionModel {
    pub vars: Map<Seq<char>, Seq<char>>,
    pub turtle: TurtleModel,
    pub suspension: Option<SuspModel>,
}

impl View for Session {
    type V = SessionModel;

    open spec fn view(&self) -> SessionModel {
        SessionModel { vars: self.vars@, turtle: self.turtle@, suspension: susp_view(self.suspension) }
    }
}

impl Session {
    /// A fresh session: no bindings, the turtle at home with the pen down,
    /// nothing suspended.
    pub fn new() -> (r: Self)
        ensures
            r@.vars == Map::<Seq<char>, Seq<char>>::empty(),
            r@.turtle == initial_turtle(),
            r@.suspension is None,
    {
        Session { vars: StrMap::new(), turtle: Turtle::new(), suspension: None }
    }
}

/// The transcript the dispatcher returns for an unsupported dialect name.
pub open spec fn unsupported_msg(dialect: Seq<char>) -> Seq<char> {
    "Language '"@ + dialect + "' not yet supported for execution"@
}

/// What dispatching does: exactly one dialect interpreter runs, by name;
/// an unrecognized name produces an explanatory transcript and leaves every
/// store untouched. The result is the new session and the transcript.
pub open spec fn dispatch_spec(
    sm: SessionModel,
    source: Seq<char>,
    dialect: Seq<char>,
    fuel: nat,
) -> (SessionModel, Seq<Seq<char>>) {
    if dialect == "TW BASIC"@ {
        let fin = crate::basic::run_fuel(
            crate::basic::init_state(crate::basic::program_spec(source), sm),
            fuel,
        );
        (SessionModel { vars: fin.vars, turtle: fin.turtle, suspension: fin.susp }, fin.out)
    } else if dialect == "TW Pascal"@ {
        let r = crate::pascal::pascal_run(crate::text::split_lines_spec(source), sm.vars);
        (SessionModel { vars: r.vars, turtle: sm.turtle, suspension: r.susp }, r.out)
    } else if dialect == "TW Prolog"@ {
        let r = crate::prolog::prolog_run(crate::text::split_lines_spec(source), Map::empty());
        (SessionModel { vars: sm.vars, turtle: sm.turtle, suspension: r.susp }, r.out)
    } else {
        (sm, seq![unsupported_msg(dialect)])
    }
}

/// The dispatcher: routes the source text to one dialect interpreter by
/// name and returns the transcript. While a suspension is outstanding the
/// interpreter must not be re-entered here; the resume operation is the
/// only path back in. `fuel` bounds BASIC line steps, standing for the
/// host's stop affordance.
pub fn execute(
    session: &mut Session,
    source: &Vec<char>,
    dialect: &Vec<char>,
    fuel: u64,
) -> (out: Vec<Vec<char>>)
    requires
        old(session)@.suspension is None,
    ensures
        ({
            let r = dispatch_spec(old(session)@, source@, dialect@, fuel as nat);
            &&& final(session)@ == r.0
            &&& out.deep_view() == r.1
        }),
{
    let ghost r = dispatch_spec(old(session)@, source@, dialect@, fuel as nat);
    if crate::text::eq_chars(dialect, &crate::text::chars_of("TW BASIC")) {
        let out = crate::basic::execute_basic(session, source, fuel);
        proof {
            assert(final(session)@ =~~= r.0);
        }
        out
    } else if crate::text::eq_chars(dialect, &crate::text::chars_of("TW Pascal")) {
        let out = crate::pascal::execute_pascal(session, source);
        proof {
            assert(final(session)@ =~~= r.0);
        }
        out
    } else if crate::text::eq_chars(dialect, &crate::text::chars_of("TW Prolog")) {
        let out = crate::prolog::execute_prolog(session, source);
        proof {
            assert(final(session)@ =~~= r.0);
        }
        out
    } else {
        let m0 = crate::text::chars_of("Language '");
        let m1 = crate::text::concat_chars(&m0, dialect);
        let msg = crate::text::concat_chars(
            &m1,
            &crate::text::chars_of("' not yet supported for execution"),
        );
        let mut out: Vec<Vec<char>> = Vec::new();
        crate::text::push_line(&mut out, msg);
        proof {
            assert(final(session)@ =~~= r.0);
            assert(out.deep_view() =~= r.1);
        }
        out
    }
}

/// The resume operation: a non-empty input value is bound to the recorded
/// target variable (a sentinel when none was recorded), the suspension is
/// cleared, and the dispatcher re-runs the source from the start — the
/// documented simplification, which repeats transcript output shown before
/// the suspension. With no suspension outstanding, or an empty value, the
/// call is a no-op and the suspension, if any, stays.
pub fn resume(
    session: &mut Session,
    source: &Vec<char>,
    dialect: &Vec<char>,
    value: &Vec<char>,
    fuel: u64,
) -> (out: Option<Vec<Vec<char>>>)
    ensures
        (old(session)@.suspension is None || value@.len() == 0) ==> {
            &&& out is None
            &&& final(session)@ == old(session)@
        },
        (old(session)@.suspension is Some && value@.len() > 0) ==> ({
            let t0 = old(session)@.suspension->0.target;
            let target = if t0.len() > 0 {
                t0
            } else {
                "INPUT"@
            };
            let sm1 = SessionModel {
                vars: old(session)@.vars.insert(target, value@),
                turtle: old(session)@.turtle,
                suspension: None,
            };
            let r = dispatch_spec(sm1, source@, dialect@, fuel as nat);
            &&& final(session)@ == r.0
            &&& out matches Some(o) && o.deep_view() == r.1
        }),
{
    let has_susp = match &session.suspension {
        Some(_) => true,
        None => false,
    };
    if !has_susp || value.len() == 0 {
        return None;
    }
    let t0 = match &session.suspension {
        Some(s) => crate::text::copy_chars(&s.target),
        None => Vec::new(),
    };
    let target = if t0.len() > 0 {
        t0
    } else {
        crate::text::chars_of("INPUT")
    };
    let ghost td = target@;
    let v = crate::text::copy_chars(value);
    let ghost vd = v@;
    proof {
        assert(target.deep_view() =~= td);
        assert(v.deep_view() =~= vd);
    }
    session.vars.set(target, v);
    session.suspension = None;
    let out = execute(session, source, dialect, fuel);
    Some(out)
}

} // verus!
