//! Exec mode: load the variables of namespaces into a child environment and run
//! the target in place of this process.

use vstd::prelude::*;

use crate::creds::{message, secret_view, CredError};
use crate::decrypt::found_view;
use crate::failure::{bytes_view, Failure, FailureView};
use crate::listing::{names_view, not_found, not_found_message};
use crate::store::{cred_name, cred_name_of, valid_var, var_complaint, Namespace, VarName};
use crate::text::same_text;

verus! {

/// Why the target was not run.
#[derive(Debug)]
pub struct ExecError(pub String);

impl View for ExecError {
    type V = Seq<char>;

    open spec fn view(&self) -> Seq<char> {
        self.0@
    }
}

// ---- one value -----------------------------------------------------------------

/// Bytes or a message, over what they say.
pub open spec fn value_view(r: Result<Vec<u8>, String>) -> Result<Seq<u8>, Seq<char>> {
    match r {
        Ok(b) => Ok(b@),
        Err(e) => Err(e@),
    }
}

/// The state of resolving one variable, named after what is due.
pub enum Resolve {
    /// Read the credential from the credentials directory.
    Directory { cred_name: String, ns: Namespace, var: VarName },
    /// Find the ciphertext file, securing the directories on the way.
    Path { cred_name: String, ns: Namespace, var: VarName },
    /// Decrypt the ciphertext file.
    Decrypt { cred_name: String, path: Vec<u8> },
    Done(Result<Vec<u8>, String>),
}

pub enum ResolveView {
    Directory { cred_name: Seq<char>, ns: Seq<char>, var: Seq<char> },
    Path { cred_name: Seq<char>, ns: Seq<char>, var: Seq<char> },
    Decrypt { cred_name: Seq<char>, path: Seq<u8> },
    Done(Result<Seq<u8>, Seq<char>>),
}

impl View for Resolve {
    type V = ResolveView;

    open spec fn view(&self) -> ResolveView {
        match *self {
            Resolve::Directory { cred_name, ns, var } => ResolveView::Directory {
                cred_name: cred_name@,
                ns: ns@,
                var: var@,
            },
            Resolve::Path { cred_name, ns, var } => ResolveView::Path {
                cred_name: cred_name@,
                ns: ns@,
                var: var@,
            },
            Resolve::Decrypt { cred_name, path } => ResolveView::Decrypt {
                cred_name: cred_name@,
                path: path@,
            },
            Resolve::Done(r) => ResolveView::Done(value_view(r)),
        }
    }
}

/// The outcome of what was due in resolving a variable.
pub enum ResolveEvent {
    Directory(Result<Option<Vec<u8>>, CredError>),
    Path(Result<Vec<u8>, Failure>),
    Decrypted(Result<Vec<u8>, CredError>),
}

pub enum ResolveEventView {
    Directory(Result<Option<Seq<u8>>, Seq<char>>),
    Path(Result<Seq<u8>, FailureView>),
    Decrypted(Result<Seq<u8>, Seq<char>>),
}

impl View for ResolveEvent {
    type V = ResolveEventView;

    open spec fn view(&self) -> ResolveEventView {
        match *self {
            ResolveEvent::Directory(r) => ResolveEventView::Directory(found_view(r)),
            ResolveEvent::Path(r) => ResolveEventView::Path(bytes_view(r)),
            ResolveEvent::Decrypted(r) => ResolveEventView::Decrypted(secret_view(r)),
        }
    }
}

/// The state after `event`: a value from the credentials directory is preferred;
/// only where there is none is the ciphertext file decrypted.
pub open spec fn resolve_next(s: ResolveView, event: ResolveEventView) -> ResolveView {
    match (s, event) {
        (ResolveView::Directory { cred_name, ns, var }, ResolveEventView::Directory(r)) => match r {
            Ok(Some(bytes)) => ResolveView::Done(Ok(bytes)),
            Ok(None) => ResolveView::Path { cred_name, ns, var },
            Err(e) => ResolveView::Done(Err(e)),
        },
        (ResolveView::Path { cred_name, ns, var }, ResolveEventView::Path(r)) => match r {
            Ok(path) => ResolveView::Decrypt { cred_name, path },
            Err(f) => ResolveView::Done(Err(f.message)),
        },
        (
            ResolveView::Decrypt { cred_name, path },
            ResolveEventView::Decrypted(r),
        ) => ResolveView::Done(r),
        _ => s,
    }
}

/// Starts to resolve the value of a variable.
pub fn resolve(cred_name: &str, ns: &Namespace, var: &VarName) -> (r: Resolve)
    ensures
        r@ == (ResolveView::Directory { cred_name: cred_name@, ns: ns@, var: var@ }),
{
    Resolve::Directory { cred_name: cred_name.to_owned(), ns: ns.clone(), var: var.clone() }
}

impl Resolve {
    /// The state after `event`.
    pub fn step(self, event: ResolveEvent) -> (r: Resolve)
        ensures
            r@ == resolve_next(self@, event@),
    {
        match (self, event) {
            (Resolve::Directory { cred_name, ns, var }, ResolveEvent::Directory(r)) => match r {
                Ok(Some(bytes)) => Resolve::Done(Ok(bytes)),
                Ok(None) => Resolve::Path { cred_name, ns, var },
                Err(e) => Resolve::Done(Err(e.0)),
            },
            (Resolve::Path { cred_name, ns: _, var: _ }, ResolveEvent::Path(r)) => match r {
                Ok(path) => Resolve::Decrypt { cred_name, path },
                Err(f) => Resolve::Done(Err(f.message)),
            },
            (Resolve::Decrypt { cred_name: _, path: _ }, ResolveEvent::Decrypted(r)) => match r {
                Ok(bytes) => Resolve::Done(Ok(bytes)),
                Err(e) => Resolve::Done(Err(e.0)),
            },
            (s, _) => s,
        }
    }
}

// ---- the environment -------------------------------------------------------------

/// A variable for the child's environment.
pub struct EnvVar {
    pub name: String,
    pub value: Vec<u8>,
}

pub struct EnvVarView {
    pub name: Seq<char>,
    pub value: Seq<u8>,
}

impl View for EnvVar {
    type V = EnvVarView;

    open spec fn view(&self) -> EnvVarView {
        EnvVarView { name: self.name@, value: self.value@ }
    }
}

/// Variables, over what they say.
pub open spec fn vars_view(env: Seq<EnvVar>) -> Seq<EnvVarView> {
    env.map_values(|v: EnvVar| v@)
}

/// `env` with `var` set: in the place of a variable of that name, or else at the end.
pub open spec fn env_set(env: Seq<EnvVarView>, var: EnvVarView) -> Seq<EnvVarView>
    decreases env.len(),
{
    if env.len() == 0 {
        seq![var]
    } else if env[0].name == var.name {
        env.update(0, var)
    } else {
        seq![env[0]] + env_set(env.drop_first(), var)
    }
}

/// The first variable of `env` whose value holds a NUL byte.
pub open spec fn first_nul(env: Seq<EnvVarView>) -> Option<Seq<char>>
    decreases env.len(),
{
    if env.len() == 0 {
        None
    } else if env[0].value.contains(0) {
        Some(env[0].name)
    } else {
        first_nul(env.drop_first())
    }
}

proof fn env_set_at(env: Seq<EnvVarView>, var: EnvVarView, i: int)
    requires
        0 <= i <= env.len(),
        forall|j: int| 0 <= j < i ==> (#[trigger] env[j]).name != var.name,
        i < env.len() ==> env[i].name == var.name,
    ensures
        env_set(env, var) == if i < env.len() {
            env.update(i, var)
        } else {
            env.push(var)
        },
    decreases env.len(),
{
    if i > 0 {
        let tail = env.drop_first();
        assert forall|j: int| 0 <= j < i - 1 implies (#[trigger] tail[j]).name != var.name by {
            assert(tail[j] == env[j + 1]);
        }
        env_set_at(tail, var, i - 1);
        if i < env.len() {
            assert(seq![env[0]] + tail.update(i - 1, var) =~= env.update(i, var));
        } else {
            assert(seq![env[0]] + tail.push(var) =~= env.push(var));
        }
    } else if env.len() == 0 {
        assert(seq![var] =~= env.push(var));
    }
}

/// Sets a variable.
fn set_var(env: Vec<EnvVar>, name: String, value: Vec<u8>) -> (r: Vec<EnvVar>)
    ensures
        vars_view(r@) == env_set(vars_view(env@), EnvVarView { name: name@, value: value@ }),
{
    let ghost var = EnvVarView { name: name@, value: value@ };
    let ghost before = vars_view(env@);
    let mut env = env;
    let mut i: usize = 0;
    while i < env.len() && !same_text(env[i].name.as_str(), name.as_str())
        invariant
            i <= env@.len(),
            vars_view(env@) == before,
            var.name == name@,
            forall|j: int| 0 <= j < i ==> (#[trigger] before[j]).name != var.name,
        decreases env@.len() - i,
    {
        assert(before[i as int] == env@[i as int]@);
        i = i + 1;
    }
    proof {
        if i < env@.len() {
            assert(before[i as int] == env@[i as int]@);
        }
        env_set_at(before, var, i as int);
    }
    if i < env.len() {
        env.set(i, EnvVar { name, value });
        assert(vars_view(env@) =~= before.update(i as int, var));
    } else {
        env.push(EnvVar { name, value });
        assert(vars_view(env@) =~= before.push(var));
    }
    env
}

/// Whether some bytes hold a NUL.
pub fn has_nul(value: &[u8]) -> (r: bool)
    ensures
        r == value@.contains(0),
{
    let mut i: usize = 0;
    while i < value.len()
        invariant
            i <= value@.len(),
            forall|j: int| 0 <= j < i ==> value@[j] != 0,
        decreases value@.len() - i,
    {
        if value[i] == 0 {
            return true;
        }
        i = i + 1;
    }
    false
}

fn find_nul(env: &Vec<EnvVar>) -> (r: Option<String>)
    ensures
        match r {
            Some(name) => first_nul(vars_view(env@)) == Some(name@),
            None => first_nul(vars_view(env@)) is None,
        },
{
    let ghost all = vars_view(env@);
    let mut i: usize = 0;
    assert(all.skip(0) =~= all);
    while i < env.len()
        invariant
            i <= env@.len(),
            all == vars_view(env@),
            first_nul(all.skip(i as int)) == first_nul(all),
        decreases env@.len() - i,
    {
        assert(all.skip(i as int)[0] == env@[i as int]@);
        if has_nul(env[i].value.as_slice()) {
            return Some(env[i].name.clone());
        }
        assert(all.skip(i as int).drop_first() =~= all.skip(i + 1));
        i = i + 1;
    }
    assert(all.skip(i as int) =~= Seq::<EnvVarView>::empty());
    None
}

// ---- the run -----------------------------------------------------------------------

/// The target, the namespace at hand, those that follow, and the variables so far.
pub struct ExecPlan {
    pub argv: Vec<String>,
    pub ns: Namespace,
    pub rest: Vec<Namespace>,
    pub env: Vec<EnvVar>,
}

pub struct ExecPlanView {
    pub argv: Seq<Seq<char>>,
    pub ns: Seq<char>,
    pub rest: Seq<Seq<char>>,
    pub env: Seq<EnvVarView>,
}

impl View for ExecPlan {
    type V = ExecPlanView;

    open spec fn view(&self) -> ExecPlanView {
        ExecPlanView {
            argv: self.argv.deep_view(),
            ns: self.ns@,
            rest: self.rest.deep_view(),
            env: vars_view(self.env@),
        }
    }
}

/// The state of exec mode, named after what is due.
pub enum Exec {
    /// Find out whether the namespace at hand exists.
    Exists(ExecPlan),
    /// List the variables of the namespace at hand.
    List(ExecPlan),
    /// Resolve `var` of the namespace at hand; `vars` follow.
    Resolve { plan: ExecPlan, var: VarName, vars: Vec<String> },
    /// Run `argv` in place of this process, with `env` set in the environment.
    Run { argv: Vec<String>, env: Vec<EnvVar> },
    Done(ExecError),
}

pub enum ExecView {
    Exists(ExecPlanView),
    List(ExecPlanView),
    Resolve { plan: ExecPlanView, var: Seq<char>, vars: Seq<Seq<char>> },
    Run { argv: Seq<Seq<char>>, env: Seq<EnvVarView> },
    Done(Seq<char>),
}

impl View for Exec {
    type V = ExecView;

    open spec fn view(&self) -> ExecView {
        match *self {
            Exec::Exists(plan) => ExecView::Exists(plan@),
            Exec::List(plan) => ExecView::List(plan@),
            Exec::Resolve { plan, var, vars } => ExecView::Resolve {
                plan: plan@,
                var: var@,
                vars: vars.deep_view(),
            },
            Exec::Run { argv, env } => ExecView::Run {
                argv: argv.deep_view(),
                env: vars_view(env@),
            },
            Exec::Done(e) => ExecView::Done(e@),
        }
    }
}

/// The outcome of what was due in exec mode.
pub enum ExecEvent {
    Exists(Result<bool, Failure>),
    Listed(Result<Vec<String>, String>),
    Resolved(Result<Vec<u8>, String>),
    /// The target could not be run.
    RunFailed(Failure),
}

pub enum ExecEventView {
    Exists(Result<bool, FailureView>),
    Listed(Result<Seq<Seq<char>>, Seq<char>>),
    Resolved(Result<Seq<u8>, Seq<char>>),
    RunFailed(FailureView),
}

impl View for ExecEvent {
    type V = ExecEventView;

    open spec fn view(&self) -> ExecEventView {
        match *self {
            ExecEvent::Exists(Ok(b)) => ExecEventView::Exists(Ok(b)),
            ExecEvent::Exists(Err(f)) => ExecEventView::Exists(Err(f@)),
            ExecEvent::Listed(r) => ExecEventView::Listed(names_view(r)),
            ExecEvent::Resolved(r) => ExecEventView::Resolved(value_view(r)),
            ExecEvent::RunFailed(f) => ExecEventView::RunFailed(f@),
        }
    }
}

pub open spec fn nul_message(name: Seq<char>) -> Seq<char> {
    "refusing to set "@ + name + ": value contains NUL"@
}

/// On to the next namespace, or, when there is none, to running the target: that
/// is refused where a value holds a NUL byte.
pub open spec fn to_namespaces(
    argv: Seq<Seq<char>>,
    rest: Seq<Seq<char>>,
    env: Seq<EnvVarView>,
) -> ExecView {
    if rest.len() > 0 {
        ExecView::Exists(ExecPlanView { argv, ns: rest[0], rest: rest.drop_first(), env })
    } else {
        match first_nul(env) {
            Some(name) => ExecView::Done(nul_message(name)),
            None => ExecView::Run { argv, env },
        }
    }
}

/// On to the next variable of the namespace at hand, or, when there is none, to
/// the next namespace. A name that is not a variable name is an error.
pub open spec fn to_vars(plan: ExecPlanView, vars: Seq<Seq<char>>) -> ExecView {
    if vars.len() == 0 {
        to_namespaces(plan.argv, plan.rest, plan.env)
    } else if valid_var(vars[0]) {
        ExecView::Resolve { plan, var: vars[0], vars: vars.drop_first() }
    } else {
        ExecView::Done(var_complaint(vars[0]))
    }
}

/// The state after `event`. Namespaces are loaded from left to right, and a later
/// value replaces an earlier one of the same name. Whatever fails, the target is
/// not run.
pub open spec fn exec_next(s: ExecView, event: ExecEventView) -> ExecView {
    match (s, event) {
        (ExecView::Exists(plan), ExecEventView::Exists(r)) => match r {
            Ok(true) => ExecView::List(plan),
            Ok(false) => ExecView::Done(not_found_message(plan.ns)),
            Err(f) => ExecView::Done(f.message),
        },
        (ExecView::List(plan), ExecEventView::Listed(r)) => match r {
            Ok(vars) => to_vars(plan, vars),
            Err(e) => ExecView::Done(e),
        },
        (ExecView::Resolve { plan, var, vars }, ExecEventView::Resolved(r)) => match r {
            Ok(value) => to_vars(
                ExecPlanView { env: env_set(plan.env, EnvVarView { name: var, value }), ..plan },
                vars,
            ),
            Err(e) => ExecView::Done(e),
        },
        (ExecView::Run { argv, env }, ExecEventView::RunFailed(f)) => ExecView::Done(
            "exec failed: "@ + f.message,
        ),
        _ => s,
    }
}

/// The start of exec mode.
pub open spec fn exec_start(namespaces: Seq<Seq<char>>, argv: Seq<Seq<char>>) -> ExecView {
    if argv.len() == 0 {
        ExecView::Done("no command given"@)
    } else {
        to_namespaces(argv, namespaces, Seq::empty())
    }
}

fn go_to_namespaces(argv: Vec<String>, rest: Vec<Namespace>, env: Vec<EnvVar>) -> (r: Exec)
    ensures
        r@ == to_namespaces(argv.deep_view(), rest.deep_view(), vars_view(env@)),
{
    if rest.len() > 0 {
        let ghost before = rest.deep_view();
        let mut rest = rest;
        let ns = rest.remove(0);
        assert(rest.deep_view() =~= before.drop_first());
        Exec::Exists(ExecPlan { argv, ns, rest, env })
    } else {
        match find_nul(&env) {
            Some(name) => {
                let mut m = "refusing to set ".to_owned();
                m.append(name.as_str());
                m.append(": value contains NUL");
                Exec::Done(ExecError(m))
            },
            None => Exec::Run { argv, env },
        }
    }
}

fn go_to_vars(plan: ExecPlan, vars: Vec<String>) -> (r: Exec)
    ensures
        r@ == to_vars(plan@, vars.deep_view()),
{
    if vars.len() == 0 {
        go_to_namespaces(plan.argv, plan.rest, plan.env)
    } else {
        let ghost before = vars.deep_view();
        let mut vars = vars;
        let first = vars.remove(0);
        assert(vars.deep_view() =~= before.drop_first());
        match VarName::parse(first.as_str()) {
            Ok(var) => Exec::Resolve { plan, var, vars },
            Err(e) => Exec::Done(ExecError(e)),
        }
    }
}

/// Starts to resolve the variable at hand, under its credential name.
pub fn resolve_due(plan: &ExecPlan, var: &VarName) -> (r: Resolve)
    ensures
        r@ == (ResolveView::Directory {
            cred_name: cred_name_of(plan@.ns, var@),
            ns: plan@.ns,
            var: var@,
        }),
{
    let name = cred_name(&plan.ns, var);
    resolve(name.as_str(), &plan.ns, var)
}

/// Starts to load all variables of `namespaces` (left to right; later override)
/// for running `argv`. The caller's environment is inherited; only the loaded
/// variables are overridden.
pub fn run(namespaces: Vec<Namespace>, argv: Vec<String>) -> (r: Exec)
    ensures
        r@ == exec_start(namespaces.deep_view(), argv.deep_view()),
{
    if argv.len() == 0 {
        return Exec::Done(ExecError("no command given".to_owned()));
    }
    let env: Vec<EnvVar> = Vec::new();
    assert(vars_view(env@) =~= Seq::<EnvVarView>::empty());
    go_to_namespaces(argv, namespaces, env)
}

impl Exec {
    /// The state after `event`.
    pub fn step(self, event: ExecEvent) -> (r: Exec)
        ensures
            r@ == exec_next(self@, event@),
    {
        match (self, event) {
            (Exec::Exists(plan), ExecEvent::Exists(r)) => match r {
                Ok(true) => Exec::List(plan),
                Ok(false) => Exec::Done(ExecError(not_found(&plan.ns))),
                Err(f) => Exec::Done(ExecError(f.message)),
            },
            (Exec::List(plan), ExecEvent::Listed(r)) => match r {
                Ok(vars) => go_to_vars(plan, vars),
                Err(e) => Exec::Done(ExecError(e)),
            },
            (Exec::Resolve { plan, var, vars }, ExecEvent::Resolved(r)) => match r {
                Ok(value) => {
                    let ExecPlan { argv, ns, rest, env } = plan;
                    let env = set_var(env, var.as_str().to_owned(), value);
                    go_to_vars(ExecPlan { argv, ns, rest, env }, vars)
                },
                Err(e) => Exec::Done(ExecError(e)),
            },
            (Exec::Run { argv: _, env: _ }, ExecEvent::RunFailed(f)) => Exec::Done(
                ExecError(message("exec failed: ", f.message.as_str())),
            ),
            (s, _) => s,
        }
    }
}

} // verus!
