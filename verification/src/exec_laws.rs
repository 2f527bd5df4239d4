//! What exec mode promises over whole runs.

use vstd::prelude::*;

use crate::exec::{
    env_set, exec_next, exec_start, first_nul, nul_message, resolve_next, to_namespaces, to_vars,
    EnvVarView, ExecEventView, ExecPlanView, ExecView, ResolveEventView, ResolveView,
};
use crate::failure::FailureView;
use crate::runs::nothing_is_undone;
use crate::store::{valid_var, var_complaint};
use crate::text::{occurs, told_last, told_within};

verus! {

/// The state after a sequence of events.
pub open spec fn exec_run(s: ExecView, events: Seq<ExecEventView>) -> ExecView
    decreases events.len(),
{
    if events.len() == 0 {
        s
    } else {
        exec_next(exec_run(s, events.drop_last()), events.last())
    }
}

/// The namespaces that were found to exist, in order.
pub open spec fn found(s: ExecView, events: Seq<ExecEventView>) -> Seq<Seq<char>>
    decreases events.len(),
{
    if events.len() == 0 {
        Seq::empty()
    } else {
        let before = found(s, events.drop_last());
        match (exec_run(s, events.drop_last()), events.last()) {
            (ExecView::Exists(plan), ExecEventView::Exists(Ok(b))) => if b {
                before.push(plan.ns)
            } else {
                before
            },
            _ => before,
        }
    }
}

/// A namespace and the variables that its listing named.
pub struct Load {
    pub ns: Seq<char>,
    pub vars: Seq<Seq<char>>,
}

/// The listings that were made, in order.
pub open spec fn loads(s: ExecView, events: Seq<ExecEventView>) -> Seq<Load>
    decreases events.len(),
{
    if events.len() == 0 {
        Seq::empty()
    } else {
        let before = loads(s, events.drop_last());
        match (exec_run(s, events.drop_last()), events.last()) {
            (ExecView::List(plan), ExecEventView::Listed(Ok(vars))) => before.push(
                Load { ns: plan.ns, vars },
            ),
            _ => before,
        }
    }
}

/// A variable of a namespace and its value.
pub struct Resolution {
    pub ns: Seq<char>,
    pub var: Seq<char>,
    pub value: Seq<u8>,
}

/// The values that were resolved, in order.
pub open spec fn resolutions(s: ExecView, events: Seq<ExecEventView>) -> Seq<Resolution>
    decreases events.len(),
{
    if events.len() == 0 {
        Seq::empty()
    } else {
        let before = resolutions(s, events.drop_last());
        match (exec_run(s, events.drop_last()), events.last()) {
            (
                ExecView::Resolve { plan, var, vars },
                ExecEventView::Resolved(Ok(value)),
            ) => before.push(Resolution { ns: plan.ns, var, value }),
            _ => before,
        }
    }
}

/// The namespaces of some listings.
pub open spec fn load_names(loads: Seq<Load>) -> Seq<Seq<char>> {
    loads.map_values(|l: Load| l.ns)
}

/// Variables of one namespace, with the namespace.
pub open spec fn tagged(ns: Seq<char>, vars: Seq<Seq<char>>) -> Seq<(Seq<char>, Seq<char>)> {
    vars.map_values(|v: Seq<char>| (ns, v))
}

/// All variables of some listings, with their namespaces, in order.
pub open spec fn listed_vars(loads: Seq<Load>) -> Seq<(Seq<char>, Seq<char>)>
    decreases loads.len(),
{
    if loads.len() == 0 {
        Seq::empty()
    } else {
        listed_vars(loads.drop_last()) + tagged(loads.last().ns, loads.last().vars)
    }
}

/// The variables of some resolutions, with their namespaces.
pub open spec fn resolved_vars(rs: Seq<Resolution>) -> Seq<(Seq<char>, Seq<char>)> {
    rs.map_values(|r: Resolution| (r.ns, r.var))
}

/// The value that was resolved last under a name.
pub open spec fn last_value(rs: Seq<Resolution>, name: Seq<char>) -> Option<Seq<u8>>
    decreases rs.len(),
{
    if rs.len() == 0 {
        None
    } else if rs.last().var == name {
        Some(rs.last().value)
    } else {
        last_value(rs.drop_last(), name)
    }
}

/// The value of a name in an environment.
pub open spec fn env_value(env: Seq<EnvVarView>, name: Seq<char>) -> Option<Seq<u8>>
    decreases env.len(),
{
    if env.len() == 0 {
        None
    } else if env[0].name == name {
        Some(env[0].value)
    } else {
        env_value(env.drop_first(), name)
    }
}

/// No name occurs twice in an environment.
pub open spec fn names_differ(env: Seq<EnvVarView>) -> bool {
    forall|i: int, j: int|
        0 <= i < j < env.len() ==> (#[trigger] env[i]).name != (#[trigger] env[j]).name
}

/// An environment that holds, for each name, the value that was resolved last.
pub open spec fn env_holds(env: Seq<EnvVarView>, rs: Seq<Resolution>) -> bool {
    &&& names_differ(env)
    &&& forall|name: Seq<char>| #[trigger] env_value(env, name) == last_value(rs, name)
}

proof fn setting_sets(env: Seq<EnvVarView>, var: EnvVarView, name: Seq<char>)
    ensures
        env_value(env_set(env, var), name) == if name == var.name {
            Some(var.value)
        } else {
            env_value(env, name)
        },
    decreases env.len(),
{
    if env.len() == 0 {
        assert(env_value(seq![var].drop_first(), name) is None);
    } else if env[0].name == var.name {
        assert(env.update(0, var).drop_first() =~= env.drop_first());
    } else {
        setting_sets(env.drop_first(), var, name);
        assert((seq![env[0]] + env_set(env.drop_first(), var)).drop_first() =~= env_set(
            env.drop_first(),
            var,
        ));
    }
}

proof fn setting_keeps_names_apart(env: Seq<EnvVarView>, var: EnvVarView)
    requires
        names_differ(env),
    ensures
        names_differ(env_set(env, var)),
        forall|i: int|
            0 <= i < env_set(env, var).len() ==> (#[trigger] env_set(env, var)[i]).name == var.name
                || exists|j: int|
                0 <= j < env.len() && (#[trigger] env[j]).name == env_set(env, var)[i].name,
    decreases env.len(),
{
    let after = env_set(env, var);
    if env.len() > 0 && env[0].name != var.name {
        let tail = env.drop_first();
        setting_keeps_names_apart(tail, var);
        let set = env_set(tail, var);
        assert forall|i: int| 0 <= i < after.len() implies (#[trigger] after[i]).name == var.name
            || exists|j: int| 0 <= j < env.len() && (#[trigger] env[j]).name == after[i].name by {
            if i == 0 {
                assert(env[0].name == after[0].name);
            } else {
                assert(after[i] == set[i - 1]);
                if set[i - 1].name != var.name {
                    let j = choose|j: int|
                        0 <= j < tail.len() && (#[trigger] tail[j]).name == set[i - 1].name;
                    assert(env[j + 1].name == after[i].name);
                }
            }
        }
        assert forall|i: int, j: int| 0 <= i < j < after.len() implies (#[trigger] after[i]).name
            != (#[trigger] after[j]).name by {
            assert(after[j] == set[j - 1]);
            if i == 0 {
                if set[j - 1].name != var.name {
                    let k = choose|k: int|
                        0 <= k < tail.len() && (#[trigger] tail[k]).name == set[j - 1].name;
                    assert(env[0].name != env[k + 1].name);
                }
            } else {
                assert(after[i] == set[i - 1]);
            }
        }
    } else if env.len() > 0 {
        assert forall|i: int| 0 <= i < after.len() implies (#[trigger] after[i]).name == var.name
            || exists|j: int| 0 <= j < env.len() && (#[trigger] env[j]).name == after[i].name by {
            if i > 0 {
                assert(env[i].name == after[i].name);
            }
        }
        assert forall|i: int, j: int| 0 <= i < j < after.len() implies (#[trigger] after[i]).name
            != (#[trigger] after[j]).name by {
            assert(env[i].name != env[j].name);
        }
    }
}

/// The promise for a state in the middle of a run.
spec fn on_track(
    s: ExecView,
    namespaces: Seq<Seq<char>>,
    argv: Seq<Seq<char>>,
    found: Seq<Seq<char>>,
    loads: Seq<Load>,
    rs: Seq<Resolution>,
) -> bool {
    match s {
        ExecView::Exists(p) => {
            &&& p.argv == argv
            &&& load_names(loads).push(p.ns) + p.rest == namespaces
            &&& found == load_names(loads)
            &&& resolved_vars(rs) == listed_vars(loads)
            &&& env_holds(p.env, rs)
        },
        ExecView::List(p) => {
            &&& p.argv == argv
            &&& load_names(loads).push(p.ns) + p.rest == namespaces
            &&& found == load_names(loads).push(p.ns)
            &&& resolved_vars(rs) == listed_vars(loads)
            &&& env_holds(p.env, rs)
        },
        ExecView::Resolve { plan: p, var, vars } => {
            &&& p.argv == argv
            &&& load_names(loads) + p.rest == namespaces
            &&& found == load_names(loads)
            &&& resolved_vars(rs) + tagged(p.ns, seq![var] + vars) == listed_vars(loads)
            &&& env_holds(p.env, rs)
        },
        ExecView::Run { argv: a, env } => ready_to_run(
            a,
            env,
            namespaces,
            argv,
            found,
            loads,
            rs,
        ),
        ExecView::Done(_) => true,
    }
}

/// What holds when the target is run: its arguments are the given ones; every
/// namespace, from left to right, was found and listed; every listed variable was
/// resolved; the environment holds the last value of each name; no value holds a
/// NUL byte.
pub open spec fn ready_to_run(
    argv: Seq<Seq<char>>,
    env: Seq<EnvVarView>,
    namespaces: Seq<Seq<char>>,
    given_argv: Seq<Seq<char>>,
    found: Seq<Seq<char>>,
    loads: Seq<Load>,
    rs: Seq<Resolution>,
) -> bool {
    &&& argv == given_argv
    &&& found == namespaces
    &&& load_names(loads) == namespaces
    &&& resolved_vars(rs) == listed_vars(loads)
    &&& env_holds(env, rs)
    &&& forall|i: int| 0 <= i < env.len() ==> !(#[trigger] env[i]).value.contains(0)
}

proof fn no_nul_anywhere(env: Seq<EnvVarView>)
    requires
        first_nul(env) is None,
    ensures
        forall|i: int| 0 <= i < env.len() ==> !(#[trigger] env[i]).value.contains(0),
    decreases env.len(),
{
    if env.len() > 0 {
        let tail = env.drop_first();
        no_nul_anywhere(tail);
        assert forall|i: int| 0 <= i < env.len() implies !(#[trigger] env[i]).value.contains(0) by {
            if i > 0 {
                assert(env[i] == tail[i - 1]);
            }
        }
    }
}

proof fn namespaces_stay_on_track(
    rest: Seq<Seq<char>>,
    env: Seq<EnvVarView>,
    namespaces: Seq<Seq<char>>,
    argv: Seq<Seq<char>>,
    found: Seq<Seq<char>>,
    loads: Seq<Load>,
    rs: Seq<Resolution>,
)
    requires
        load_names(loads) + rest == namespaces,
        found == load_names(loads),
        resolved_vars(rs) == listed_vars(loads),
        env_holds(env, rs),
    ensures
        on_track(to_namespaces(argv, rest, env), namespaces, argv, found, loads, rs),
{
    if rest.len() > 0 {
        assert(load_names(loads).push(rest[0]) + rest.drop_first() =~= load_names(loads) + rest);
    } else {
        assert(load_names(loads) + rest =~= load_names(loads));
        if first_nul(env) is None {
            no_nul_anywhere(env);
        }
    }
}

proof fn vars_stay_on_track(
    plan: ExecPlanView,
    vars: Seq<Seq<char>>,
    namespaces: Seq<Seq<char>>,
    argv: Seq<Seq<char>>,
    found: Seq<Seq<char>>,
    loads: Seq<Load>,
    rs: Seq<Resolution>,
)
    requires
        plan.argv == argv,
        load_names(loads) + plan.rest == namespaces,
        found == load_names(loads),
        resolved_vars(rs) + tagged(plan.ns, vars) == listed_vars(loads),
        env_holds(plan.env, rs),
    ensures
        on_track(to_vars(plan, vars), namespaces, argv, found, loads, rs),
{
    if vars.len() == 0 {
        assert(resolved_vars(rs) + tagged(plan.ns, vars) =~= resolved_vars(rs));
        namespaces_stay_on_track(plan.rest, plan.env, namespaces, argv, found, loads, rs);
    } else {
        assert(seq![vars[0]] + vars.drop_first() =~= vars);
    }
}

proof fn runs_stay_on_track(
    namespaces: Seq<Seq<char>>,
    argv: Seq<Seq<char>>,
    events: Seq<ExecEventView>,
)
    ensures
        ({
            let start = exec_start(namespaces, argv);
            on_track(
                exec_run(start, events),
                namespaces,
                argv,
                found(start, events),
                loads(start, events),
                resolutions(start, events),
            )
        }),
    decreases events.len(),
{
    let start = exec_start(namespaces, argv);
    if events.len() == 0 {
        let none = Seq::<Load>::empty();
        assert(load_names(none) + namespaces =~= namespaces);
        assert(load_names(none) =~= Seq::<Seq<char>>::empty());
        assert(resolved_vars(Seq::<Resolution>::empty()) =~= listed_vars(none));
        if argv.len() > 0 {
            namespaces_stay_on_track(
                namespaces,
                Seq::empty(),
                namespaces,
                argv,
                found(start, events),
                loads(start, events),
                resolutions(start, events),
            );
        }
    } else {
        let before = events.drop_last();
        runs_stay_on_track(namespaces, argv, before);
        let s = exec_run(start, before);
        let f0 = found(start, before);
        let l0 = loads(start, before);
        let r0 = resolutions(start, before);
        let l1 = loads(start, events);
        let r1 = resolutions(start, events);
        match (s, events.last()) {
            (ExecView::List(plan), ExecEventView::Listed(Ok(vars))) => {
                assert(l1.drop_last() =~= l0);
                assert(load_names(l1) =~= load_names(l0).push(plan.ns));
                assert(listed_vars(l1) == listed_vars(l0) + tagged(plan.ns, vars));
                vars_stay_on_track(plan, vars, namespaces, argv, f0, l1, r0);
            },
            (ExecView::Resolve { plan, var, vars }, ExecEventView::Resolved(Ok(value))) => {
                let set = EnvVarView { name: var, value };
                let next = ExecPlanView { env: env_set(plan.env, set), ..plan };
                assert(r1.drop_last() =~= r0);
                assert(resolved_vars(r1) + tagged(plan.ns, vars) =~= resolved_vars(r0) + tagged(
                    plan.ns,
                    seq![var] + vars,
                ));
                setting_keeps_names_apart(plan.env, set);
                assert forall|name: Seq<char>| #[trigger]
                    env_value(next.env, name) == last_value(r1, name) by {
                    setting_sets(plan.env, set, name);
                    assert(env_value(plan.env, name) == last_value(r0, name));
                }
                vars_stay_on_track(next, vars, namespaces, argv, f0, l0, r1);
            },
            _ => {},
        }
    }
}

/// The target is run only with everything that was asked for, and with the values
/// merged from left to right: see [`ready_to_run`]. In every other case the run
/// ends in an error without the target being run.
pub proof fn targets_run_with_every_secret(
    namespaces: Seq<Seq<char>>,
    argv: Seq<Seq<char>>,
    events: Seq<ExecEventView>,
)
    ensures
        ({
            let start = exec_start(namespaces, argv);
            exec_run(start, events) matches ExecView::Run { argv: a, env } ==> ready_to_run(
                a,
                env,
                namespaces,
                argv,
                found(start, events),
                loads(start, events),
                resolutions(start, events),
            )
        }),
{
    runs_stay_on_track(namespaces, argv, events);
}

/// A value of a later namespace overrides one of an earlier namespace of the same
/// name.
pub proof fn later_namespaces_override(rs: Seq<Resolution>, i: int, name: Seq<char>)
    requires
        0 <= i < rs.len(),
        rs[i].var == name,
        forall|j: int| i < j < rs.len() ==> (#[trigger] rs[j]).var != name,
    ensures
        last_value(rs, name) == Some(rs[i].value),
    decreases rs.len(),
{
    if i < rs.len() - 1 {
        assert(rs.last() == rs[rs.len() - 1]);
        let before = rs.drop_last();
        assert(before[i] == rs[i]);
        assert forall|j: int| i < j < before.len() implies (#[trigger] before[j]).var != name by {
            assert(before[j] == rs[j]);
        }
        later_namespaces_override(before, i, name);
    }
}

// ---- secrets ---------------------------------------------------------------------

/// Two environments that differ in values only, and not in which values hold a
/// NUL byte.
pub open spec fn env_alike(a: Seq<EnvVarView>, b: Seq<EnvVarView>) -> bool {
    &&& a.len() == b.len()
    &&& forall|i: int|
        0 <= i < a.len() ==> (#[trigger] a[i]).name == (#[trigger] b[i]).name
            && a[i].value.contains(0) == b[i].value.contains(0)
}

/// Two plans that differ in loaded values only.
pub open spec fn plan_alike(a: ExecPlanView, b: ExecPlanView) -> bool {
    a.argv == b.argv && a.ns == b.ns && a.rest == b.rest && env_alike(a.env, b.env)
}

/// Two states that differ in loaded values only.
pub open spec fn exec_alike(a: ExecView, b: ExecView) -> bool {
    match (a, b) {
        (ExecView::Exists(p), ExecView::Exists(q)) => plan_alike(p, q),
        (ExecView::List(p), ExecView::List(q)) => plan_alike(p, q),
        (
            ExecView::Resolve { plan: p, var: v, vars: vs },
            ExecView::Resolve { plan: q, var: w, vars: ws },
        ) => plan_alike(p, q) && v == w && vs == ws,
        (ExecView::Run { argv: x, env: e }, ExecView::Run { argv: y, env: f }) => x == y
            && env_alike(e, f),
        (ExecView::Done(m), ExecView::Done(n)) => m == n,
        _ => false,
    }
}

/// Two events that differ in a resolved value only, and not in whether it holds a
/// NUL byte.
pub open spec fn exec_event_alike(a: ExecEventView, b: ExecEventView) -> bool {
    match (a, b) {
        (ExecEventView::Resolved(Ok(v)), ExecEventView::Resolved(Ok(w))) => v.contains(0)
            == w.contains(0),
        _ => a == b,
    }
}

proof fn alike_nul(a: Seq<EnvVarView>, b: Seq<EnvVarView>)
    requires
        env_alike(a, b),
    ensures
        first_nul(a) == first_nul(b),
    decreases a.len(),
{
    if a.len() > 0 {
        assert(a[0].name == b[0].name);
        assert forall|i: int| 0 <= i < a.len() - 1 implies (#[trigger] a.drop_first()[i]).name == (
        #[trigger] b.drop_first()[i]).name && a.drop_first()[i].value.contains(0)
            == b.drop_first()[i].value.contains(0) by {
            assert(a[i + 1].name == b[i + 1].name);
        }
        alike_nul(a.drop_first(), b.drop_first());
    }
}

proof fn alike_set(a: Seq<EnvVarView>, b: Seq<EnvVarView>, v: EnvVarView, w: EnvVarView)
    requires
        env_alike(a, b),
        v.name == w.name,
        v.value.contains(0) == w.value.contains(0),
    ensures
        env_alike(env_set(a, v), env_set(b, w)),
    decreases a.len(),
{
    if a.len() > 0 {
        assert(a[0].name == b[0].name);
        if a[0].name == v.name {
            let x = env_set(a, v);
            let y = env_set(b, w);
            assert forall|i: int| 0 <= i < x.len() implies (#[trigger] x[i]).name == (
            #[trigger] y[i]).name && x[i].value.contains(0) == y[i].value.contains(0) by {
                if i > 0 {
                    assert(a[i].name == b[i].name);
                }
            }
        } else {
            let s = a.drop_first();
            let t = b.drop_first();
            assert forall|i: int| 0 <= i < s.len() implies (#[trigger] s[i]).name == (
            #[trigger] t[i]).name && s[i].value.contains(0) == t[i].value.contains(0) by {
                assert(a[i + 1].name == b[i + 1].name);
            }
            alike_set(s, t, v, w);
            let x = env_set(a, v);
            let y = env_set(b, w);
            assert forall|i: int| 0 <= i < x.len() implies (#[trigger] x[i]).name == (
            #[trigger] y[i]).name && x[i].value.contains(0) == y[i].value.contains(0) by {
                if i > 0 {
                    assert(x[i] == env_set(s, v)[i - 1]);
                    assert(y[i] == env_set(t, w)[i - 1]);
                }
            }
        }
    }
}

proof fn alike_vars(p: ExecPlanView, q: ExecPlanView, vars: Seq<Seq<char>>)
    requires
        plan_alike(p, q),
    ensures
        exec_alike(to_vars(p, vars), to_vars(q, vars)),
{
    alike_nul(p.env, q.env);
}

proof fn alike_steps(a: ExecView, b: ExecView, e: ExecEventView, f: ExecEventView)
    requires
        exec_alike(a, b),
        exec_event_alike(e, f),
    ensures
        exec_alike(exec_next(a, e), exec_next(b, f)),
{
    match (a, b) {
        (ExecView::List(p), ExecView::List(q)) => {
            if let ExecEventView::Listed(Ok(vars)) = e {
                alike_vars(p, q, vars);
            }
        },
        (
            ExecView::Resolve { plan: p, var, vars },
            ExecView::Resolve { plan: q, var: _, vars: _ },
        ) => {
            if let ExecEventView::Resolved(Ok(v)) = e {
                if let ExecEventView::Resolved(Ok(w)) = f {
                    let x = EnvVarView { name: var, value: v };
                    let y = EnvVarView { name: var, value: w };
                    alike_set(p.env, q.env, x, y);
                    alike_vars(
                        ExecPlanView { env: env_set(p.env, x), ..p },
                        ExecPlanView { env: env_set(q.env, y), ..q },
                        vars,
                    );
                }
            }
        },
        _ => {},
    }
}

/// No error message of exec mode renders a secret: runs that differ in resolved
/// values only, and not in which of them hold a NUL byte, end in the same message,
/// and what they ask for on the way differs in the environment of the target only.
pub proof fn exec_messages_hold_no_secret(
    start: ExecView,
    a: Seq<ExecEventView>,
    b: Seq<ExecEventView>,
)
    requires
        a.len() == b.len(),
        forall|i: int| 0 <= i < a.len() ==> exec_event_alike(#[trigger] a[i], #[trigger] b[i]),
    ensures
        exec_alike(exec_run(start, a), exec_run(start, b)),
    decreases a.len(),
{
    if a.len() > 0 {
        let x = a.drop_last();
        let y = b.drop_last();
        assert forall|i: int| 0 <= i < x.len() implies exec_event_alike(
            #[trigger] x[i],
            #[trigger] y[i],
        ) by {
            assert(exec_event_alike(a[i], b[i]));
        }
        exec_messages_hold_no_secret(start, x, y);
        assert(exec_event_alike(a[a.len() - 1], b[b.len() - 1]));
        alike_steps(exec_run(start, x), exec_run(start, y), a.last(), b.last());
    }
}

// ---- the source of a value ---------------------------------------------------------

/// The state after a sequence of events.
pub open spec fn resolve_run(s: ResolveView, events: Seq<ResolveEventView>) -> ResolveView
    decreases events.len(),
{
    if events.len() == 0 {
        s
    } else {
        resolve_next(resolve_run(s, events.drop_last()), events.last())
    }
}

/// A ciphertext file is looked for and decrypted only when the credentials
/// directory was found not to hold the value, and always under the credential
/// name that was asked for.
pub proof fn materialized_values_are_preferred(
    cred_name: Seq<char>,
    ns: Seq<char>,
    var: Seq<char>,
    events: Seq<ResolveEventView>,
)
    ensures
        match resolve_run(ResolveView::Directory { cred_name, ns, var }, events) {
            ResolveView::Directory { cred_name: c, ns: n, var: v } => c == cred_name && n == ns && v
                == var,
            ResolveView::Path { cred_name: c, ns: n, var: v } => c == cred_name && n == ns && v
                == var && events.contains(ResolveEventView::Directory(Ok(None))),
            ResolveView::Decrypt { cred_name: c, path } => c == cred_name && events.contains(
                ResolveEventView::Directory(Ok(None)),
            ) && events.contains(ResolveEventView::Path(Ok(path))),
            ResolveView::Done(Ok(value)) => events.contains(
                ResolveEventView::Directory(Ok(Some(value))),
            ) || events.contains(ResolveEventView::Directory(Ok(None))) && events.contains(
                ResolveEventView::Decrypted(Ok(value)),
            ),
            ResolveView::Done(Err(_)) => true,
        },
    decreases events.len(),
{
    if events.len() > 0 {
        let before = events.drop_last();
        materialized_values_are_preferred(cred_name, ns, var, before);
        nothing_is_undone(events);
    }
}

/// A value passes from where it was found to the environment unchanged, byte for
/// byte, and what fails is told as it is: a value from the credentials directory is
/// the outcome; without one the ciphertext file is found and decrypted, under the
/// same credential name, and that is the outcome.
pub proof fn resolved_values_pass_unchanged(
    cred_name: Seq<char>,
    ns: Seq<char>,
    var: Seq<char>,
    path: Seq<u8>,
    value: Seq<u8>,
    reason: Seq<char>,
    f: FailureView,
)
    ensures
        ({
            let start = ResolveView::Directory { cred_name, ns, var };
            let find = resolve_next(start, ResolveEventView::Directory(Ok(None)));
            let decrypt = resolve_next(find, ResolveEventView::Path(Ok(path)));
            &&& resolve_next(start, ResolveEventView::Directory(Ok(Some(value))))
                == ResolveView::Done(Ok(value))
            &&& resolve_next(start, ResolveEventView::Directory(Err(reason)))
                == ResolveView::Done(Err(reason))
            &&& find == (ResolveView::Path { cred_name, ns, var })
            &&& resolve_next(find, ResolveEventView::Path(Err(f))) == ResolveView::Done(
                Err(f.message),
            )
            &&& decrypt == (ResolveView::Decrypt { cred_name, path })
            &&& resolve_next(decrypt, ResolveEventView::Decrypted(Ok(value)))
                == ResolveView::Done(Ok(value))
            &&& resolve_next(decrypt, ResolveEventView::Decrypted(Err(reason)))
                == ResolveView::Done(Err(reason))
        }),
{
}

/// Whatever fails ends exec mode and is told: the namespace that is not there, the
/// variable whose value holds a NUL byte, and every other failure as it is.
pub proof fn failed_runs_say_why(
    plan: ExecPlanView,
    var: Seq<char>,
    vars: Seq<Seq<char>>,
    env: Seq<EnvVarView>,
    argv: Seq<Seq<char>>,
    reason: Seq<char>,
    f: FailureView,
)
    ensures
        exec_next(ExecView::Exists(plan), ExecEventView::Exists(Ok(true))) == ExecView::List(plan),
        exec_next(ExecView::Exists(plan), ExecEventView::Exists(Ok(false))) matches ExecView::Done(
            m,
        ) && plan.ns.is_suffix_of(m),
        exec_next(ExecView::Exists(plan), ExecEventView::Exists(Err(f))) == ExecView::Done(
            f.message,
        ),
        exec_next(ExecView::List(plan), ExecEventView::Listed(Err(reason))) == ExecView::Done(
            reason,
        ),
        exec_next(
            ExecView::Resolve { plan, var, vars },
            ExecEventView::Resolved(Err(reason)),
        ) == ExecView::Done(reason),
        exec_next(ExecView::Run { argv, env }, ExecEventView::RunFailed(f)) matches ExecView::Done(
            m,
        ) && f.message.is_suffix_of(m),
        occurs(var, nul_message(var)),
{
    told_last("namespace not found: "@, plan.ns);
    told_last("exec failed: "@, f.message);
    told_within("refusing to set "@, var, ": value contains NUL"@);
}

// ---- runs in which nothing fails ---------------------------------------------------

/// A variable that a namespace holds, with its value.
pub struct Held {
    pub var: Seq<char>,
    pub value: Seq<u8>,
}

/// What the namespaces hold, one behind the other.
pub open spec fn in_a_row(contents: Seq<Seq<Held>>) -> Seq<Held>
    decreases contents.len(),
{
    if contents.len() == 0 {
        Seq::empty()
    } else {
        contents[0] + in_a_row(contents.drop_first())
    }
}

/// The last value in a row that is held under a name.
pub open spec fn last_held(row: Seq<Held>, name: Seq<char>) -> Option<Seq<u8>>
    decreases row.len(),
{
    if row.len() == 0 {
        None
    } else if row.last().var == name {
        Some(row.last().value)
    } else {
        last_held(row.drop_last(), name)
    }
}

/// The events of resolving what a namespace holds.
pub open spec fn calm_values(row: Seq<Held>) -> Seq<ExecEventView> {
    row.map_values(|h: Held| ExecEventView::Resolved(Ok(h.value)))
}

/// The events of loading namespaces with the given contents when nothing fails.
pub open spec fn calm_exec(contents: Seq<Seq<Held>>) -> Seq<ExecEventView>
    decreases contents.len(),
{
    if contents.len() == 0 {
        Seq::empty()
    } else {
        seq![
            ExecEventView::Exists(Ok(true)),
            ExecEventView::Listed(Ok(contents[0].map_values(|h: Held| h.var))),
        ] + calm_values(contents[0]) + calm_exec(contents.drop_first())
    }
}

spec fn set_all(env: Seq<EnvVarView>, row: Seq<Held>) -> Seq<EnvVarView>
    decreases row.len(),
{
    if row.len() == 0 {
        env
    } else {
        set_all(env_set(env, EnvVarView { name: row[0].var, value: row[0].value }), row.drop_first())
    }
}

proof fn exec_in_parts(s: ExecView, a: Seq<ExecEventView>, b: Seq<ExecEventView>)
    ensures
        exec_run(s, a + b) == exec_run(exec_run(s, a), b),
    decreases b.len(),
{
    if b.len() == 0 {
        assert(a + b =~= a);
    } else {
        exec_in_parts(s, a, b.drop_last());
        assert((a + b).drop_last() =~= a + b.drop_last());
        assert((a + b).last() == b.last());
    }
}

proof fn exec_from_the_first(s: ExecView, events: Seq<ExecEventView>)
    requires
        events.len() > 0,
    ensures
        exec_run(s, events) == exec_run(exec_next(s, events[0]), events.drop_first()),
{
    let first = seq![events[0]];
    exec_in_parts(s, first, events.drop_first());
    assert(events =~= first + events.drop_first());
    assert(first.drop_last() =~= Seq::<ExecEventView>::empty());
    assert(exec_run(s, first.drop_last()) == s);
}

proof fn calm_values_are_set(plan: ExecPlanView, row: Seq<Held>)
    requires
        forall|i: int| 0 <= i < row.len() ==> valid_var((#[trigger] row[i]).var),
    ensures
        exec_run(to_vars(plan, row.map_values(|h: Held| h.var)), calm_values(row))
            == to_namespaces(plan.argv, plan.rest, set_all(plan.env, row)),
    decreases row.len(),
{
    let vars = row.map_values(|h: Held| h.var);
    if row.len() > 0 {
        let rest = row.drop_first();
        let set = EnvVarView { name: row[0].var, value: row[0].value };
        assert(valid_var(row[0].var));
        exec_from_the_first(to_vars(plan, vars), calm_values(row));
        assert(vars.drop_first() =~= rest.map_values(|h: Held| h.var));
        assert(calm_values(row).drop_first() =~= calm_values(rest));
        assert forall|i: int| 0 <= i < rest.len() implies valid_var((#[trigger] rest[i]).var) by {
            assert(rest[i] == row[i + 1]);
        }
        calm_values_are_set(ExecPlanView { env: env_set(plan.env, set), ..plan }, rest);
    }
}

proof fn rows_are_set_in_turn(env: Seq<EnvVarView>, a: Seq<Held>, b: Seq<Held>)
    ensures
        set_all(env, a + b) == set_all(set_all(env, a), b),
    decreases a.len(),
{
    if a.len() == 0 {
        assert(a + b =~= b);
    } else {
        assert((a + b).drop_first() =~= a.drop_first() + b);
        rows_are_set_in_turn(
            env_set(env, EnvVarView { name: a[0].var, value: a[0].value }),
            a.drop_first(),
            b,
        );
    }
}

proof fn calm_namespaces_are_loaded(
    argv: Seq<Seq<char>>,
    rest: Seq<Seq<char>>,
    env: Seq<EnvVarView>,
    contents: Seq<Seq<Held>>,
)
    requires
        rest.len() == contents.len(),
        forall|i: int, j: int|
            0 <= i < contents.len() && 0 <= j < contents[i].len() ==> valid_var(
                (#[trigger] contents[i][j]).var,
            ),
    ensures
        exec_run(to_namespaces(argv, rest, env), calm_exec(contents)) == to_namespaces(
            argv,
            Seq::empty(),
            set_all(env, in_a_row(contents)),
        ),
    decreases contents.len(),
{
    let s = to_namespaces(argv, rest, env);
    if contents.len() == 0 {
        assert(rest =~= Seq::<Seq<char>>::empty());
    } else {
        let row = contents[0];
        let later = contents.drop_first();
        let vars = row.map_values(|h: Held| h.var);
        let head = seq![ExecEventView::Exists(Ok(true)), ExecEventView::Listed(Ok(vars))];
        let plan = ExecPlanView { argv, ns: rest[0], rest: rest.drop_first(), env };
        exec_in_parts(s, head + calm_values(row), calm_exec(later));
        exec_in_parts(s, head, calm_values(row));
        exec_from_the_first(s, head);
        let tail = head.drop_first();
        exec_from_the_first(ExecView::List(plan), tail);
        assert(tail[0] == ExecEventView::Listed(Ok(vars)));
        assert(tail.drop_first() =~= Seq::<ExecEventView>::empty());
        assert(exec_run(s, head) == to_vars(plan, vars));
        assert forall|j: int| 0 <= j < row.len() implies valid_var((#[trigger] row[j]).var) by {
            assert(valid_var(contents[0][j].var));
        }
        calm_values_are_set(plan, row);
        assert forall|i: int, j: int| 0 <= i < later.len() && 0 <= j < later[i].len() implies
            valid_var((#[trigger] later[i][j]).var) by {
            assert(later[i] == contents[i + 1]);
            assert(valid_var(contents[i + 1][j].var));
        }
        calm_namespaces_are_loaded(argv, plan.rest, set_all(env, row), later);
        rows_are_set_in_turn(env, row, in_a_row(later));
    }
}

proof fn setting_adds_no_nul(env: Seq<EnvVarView>, var: EnvVarView)
    requires
        first_nul(env) is None,
        !var.value.contains(0),
    ensures
        first_nul(env_set(env, var)) is None,
    decreases env.len(),
{
    let none = Seq::<EnvVarView>::empty();
    if env.len() == 0 {
        assert(seq![var].drop_first() =~= none);
        assert(first_nul(none) is None);
    } else if env[0].name == var.name {
        assert(env.update(0, var).drop_first() =~= env.drop_first());
    } else {
        setting_adds_no_nul(env.drop_first(), var);
        assert((seq![env[0]] + env_set(env.drop_first(), var)).drop_first() =~= env_set(
            env.drop_first(),
            var,
        ));
    }
}

proof fn the_last_value_stays(env: Seq<EnvVarView>, row: Seq<Held>, name: Seq<char>)
    requires
        names_differ(env),
    ensures
        names_differ(set_all(env, row)),
        env_value(set_all(env, row), name) == match last_held(row, name) {
            Some(value) => Some(value),
            None => env_value(env, name),
        },
    decreases row.len(),
{
    if row.len() > 0 {
        let first = EnvVarView { name: row[0].var, value: row[0].value };
        let rest = row.drop_first();
        setting_keeps_names_apart(env, first);
        setting_sets(env, first, name);
        the_last_value_stays(env_set(env, first), rest, name);
        last_held_in_parts(seq![row[0]], rest, name);
        assert(row =~= seq![row[0]] + rest);
        assert(seq![row[0]].drop_last() =~= Seq::<Held>::empty());
        assert(last_held(seq![row[0]].drop_last(), name) is None);
    }
}

/// What stands later in a row overrides what stands earlier, name by name.
pub proof fn last_held_in_parts(a: Seq<Held>, b: Seq<Held>, name: Seq<char>)
    ensures
        last_held(a + b, name) == match last_held(b, name) {
            Some(value) => Some(value),
            None => last_held(a, name),
        },
    decreases b.len(),
{
    if b.len() == 0 {
        assert(a + b =~= a);
    } else {
        assert((a + b).drop_last() =~= a + b.drop_last());
        assert((a + b).last() == b.last());
        last_held_in_parts(a, b.drop_last(), name);
    }
}

proof fn rows_hold_no_nul(env: Seq<EnvVarView>, row: Seq<Held>)
    requires
        first_nul(env) is None,
        forall|i: int| 0 <= i < row.len() ==> !(#[trigger] row[i]).value.contains(0),
    ensures
        first_nul(set_all(env, row)) is None,
    decreases row.len(),
{
    if row.len() > 0 {
        let rest = row.drop_first();
        assert(!row[0].value.contains(0));
        setting_adds_no_nul(env, EnvVarView { name: row[0].var, value: row[0].value });
        assert forall|i: int| 0 <= i < rest.len() implies !(#[trigger] rest[i]).value.contains(
            0,
        ) by {
            assert(rest[i] == row[i + 1]);
        }
        rows_hold_no_nul(
            env_set(env, EnvVarView { name: row[0].var, value: row[0].value }),
            rest,
        );
    }
}

proof fn rows_are_made_of_contents(contents: Seq<Seq<Held>>)
    requires
        forall|i: int, j: int|
            0 <= i < contents.len() && 0 <= j < contents[i].len()
                ==> !(#[trigger] contents[i][j]).value.contains(0),
    ensures
        forall|k: int|
            0 <= k < in_a_row(contents).len() ==> !(#[trigger] in_a_row(contents)[k]).value.contains(
                0,
            ),
    decreases contents.len(),
{
    if contents.len() > 0 {
        let later = contents.drop_first();
        assert forall|i: int, j: int| 0 <= i < later.len() && 0 <= j < later[i].len() implies
            !(#[trigger] later[i][j]).value.contains(0) by {
            assert(later[i] == contents[i + 1]);
            assert(!contents[i + 1][j].value.contains(0));
        }
        rows_are_made_of_contents(later);
        let row = in_a_row(contents);
        assert forall|k: int| 0 <= k < row.len() implies !(#[trigger] row[k]).value.contains(0) by {
            if k < contents[0].len() {
                assert(row[k] == contents[0][k]);
            } else {
                assert(row[k] == in_a_row(later)[k - contents[0].len()]);
            }
        }
    }
}

/// Where the namespaces hold the given variables and nothing fails, the target is
/// run with the given arguments, and its environment holds under each name, once,
/// the value of the last namespace that has it, byte for byte, and no other name.
pub proof fn targets_run_with_what_is_held(
    namespaces: Seq<Seq<char>>,
    argv: Seq<Seq<char>>,
    contents: Seq<Seq<Held>>,
)
    requires
        argv.len() > 0,
        contents.len() == namespaces.len(),
        forall|i: int, j: int|
            0 <= i < contents.len() && 0 <= j < contents[i].len() ==> valid_var(
                (#[trigger] contents[i][j]).var,
            ),
        forall|i: int, j: int|
            0 <= i < contents.len() && 0 <= j < contents[i].len()
                ==> !(#[trigger] contents[i][j]).value.contains(0),
    ensures
        exec_run(exec_start(namespaces, argv), calm_exec(contents)) matches ExecView::Run {
            argv: a,
            env,
        } && a == argv && names_differ(env) && forall|name: Seq<char>| #[trigger]
            env_value(env, name) == last_held(in_a_row(contents), name),
        load_names(loads(exec_start(namespaces, argv), calm_exec(contents))) == namespaces,
{
    let none = Seq::<EnvVarView>::empty();
    let row = in_a_row(contents);
    calm_namespaces_are_loaded(argv, namespaces, none, contents);
    rows_are_made_of_contents(contents);
    assert(first_nul(none) is None);
    rows_hold_no_nul(none, row);
    let env = set_all(none, row);
    assert(names_differ(env)) by {
        the_last_value_stays(none, row, Seq::empty());
    }
    assert forall|name: Seq<char>| #[trigger] env_value(env, name) == last_held(row, name) by {
        the_last_value_stays(none, row, name);
        assert(env_value(none, name) is None);
    }
    targets_run_with_every_secret(namespaces, argv, calm_exec(contents));
}

/// Of two namespaces that both hold a variable, the later one gives its value; a
/// variable that only one of them holds has that one's value.
pub proof fn the_later_of_two_namespaces_wins(
    first: Seq<char>,
    second: Seq<char>,
    argv: Seq<Seq<char>>,
    a: Seq<Held>,
    b: Seq<Held>,
    name: Seq<char>,
)
    requires
        argv.len() > 0,
        forall|j: int| 0 <= j < a.len() ==> valid_var((#[trigger] a[j]).var) && !a[j].value.contains(0),
        forall|j: int| 0 <= j < b.len() ==> valid_var((#[trigger] b[j]).var) && !b[j].value.contains(0),
    ensures
        exec_run(exec_start(seq![first, second], argv), calm_exec(seq![a, b])) matches
            ExecView::Run { argv: c, env } && c == argv && env_value(env, name) == match last_held(
            b,
            name,
        ) {
            Some(value) => Some(value),
            None => last_held(a, name),
        },
{
    let contents = seq![a, b];
    assert forall|i: int, j: int| 0 <= i < contents.len() && 0 <= j < contents[i].len() implies
        valid_var((#[trigger] contents[i][j]).var) by {
        if i == 0 {
            assert(contents[i][j] == a[j]);
        } else {
            assert(contents[i][j] == b[j]);
        }
    }
    assert forall|i: int, j: int| 0 <= i < contents.len() && 0 <= j < contents[i].len() implies
        !(#[trigger] contents[i][j]).value.contains(0) by {
        if i == 0 {
            assert(contents[i][j] == a[j]);
        } else {
            assert(contents[i][j] == b[j]);
        }
    }
    targets_run_with_what_is_held(seq![first, second], argv, contents);
    assert(contents.drop_first() =~= seq![b]);
    assert(seq![b].drop_first() =~= Seq::<Seq<Held>>::empty());
    assert(in_a_row(seq![b].drop_first()) =~= Seq::<Held>::empty());
    assert(in_a_row(seq![b]) =~= b);
    assert(in_a_row(contents) =~= a + b);
    last_held_in_parts(a, b, name);
}

/// A listed name that is no variable name ends exec mode, and it is told what is wrong
/// with it.
pub proof fn invalid_names_are_not_resolved(plan: ExecPlanView, vars: Seq<Seq<char>>)
    requires
        vars.len() > 0,
    ensures
        !valid_var(vars[0]) ==> to_vars(plan, vars) == ExecView::Done(var_complaint(vars[0])),
        valid_var(vars[0]) ==> to_vars(plan, vars) == (ExecView::Resolve {
            plan,
            var: vars[0],
            vars: vars.skip(1),
        }),
{
    assert(vars.skip(1) =~= vars.drop_first());
}

} // verus!
