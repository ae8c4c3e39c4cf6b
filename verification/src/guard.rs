//! Run-time semantics of the guard sequence that the attribute splices in
//! front of a test body: which guard (if any) fires for a given process
//! environment, and the exact diagnostic line the firing guard prints.

use vstd::prelude::*;
use vstd::string::StrSliceExecFns;
use vstd::string::StringExecFns;

verus! {

/// One environment binding: a variable name that is set, and its value.
pub struct EnvEntry {
    pub name: String,
    pub value: String,
}

/// A name counts as present when some entry of the environment binds it,
/// whatever the bound value is: an empty value is still present.
pub open spec fn env_has(env: Seq<EnvEntry>, name: Seq<char>) -> bool {
    exists|i: int| 0 <= i < env.len() && env[i].name@ == name
}

/// Every required name is present in the environment.
pub open spec fn all_present(vars: Seq<Seq<char>>, env: Seq<EnvEntry>) -> bool {
    forall|i: int| 0 <= i < vars.len() ==> env_has(env, vars[i])
}

/// Index of the first required name that is not present, if any.  The guard
/// standing at this index is the one that fires; everything after it,
/// including the original body, is not reached.
pub open spec fn first_missing_spec(vars: Seq<Seq<char>>, env: Seq<EnvEntry>) -> Option<int>
    decreases vars.len(),
{
    if vars.len() == 0 {
        None
    } else if !env_has(env, vars[0]) {
        Some(0int)
    } else {
        match first_missing_spec(vars.drop_first(), env) {
            None => None,
            Some(i) => Some(i + 1),
        }
    }
}

/// The diagnostic line a firing guard prints, naming the one variable that
/// was found missing.
pub open spec fn skip_message_spec(name: Seq<char>) -> Seq<char> {
    "Skipping test: Required environment variable '"@ + name + "' not found"@
}

/// What running the generated guard sequence prints: nothing when every
/// required variable is present (the body then runs), and exactly the skip
/// diagnostic of the first missing variable otherwise.
pub open spec fn guard_diagnostic(vars: Seq<Seq<char>>, env: Seq<EnvEntry>) -> Option<Seq<char>> {
    match first_missing_spec(vars, env) {
        None => None,
        Some(i) => Some(skip_message_spec(vars[i])),
    }
}

/// `first_missing_spec` returns `None` exactly when every required name is
/// present, and otherwise the least index whose name is missing.
pub proof fn lemma_first_missing_characterizes(vars: Seq<Seq<char>>, env: Seq<EnvEntry>)
    ensures
        match first_missing_spec(vars, env) {
            None => all_present(vars, env),
            Some(i) => 0 <= i < vars.len() && !env_has(env, vars[i])
                && (forall|j: int| 0 <= j < i ==> env_has(env, vars[j])),
        },
    decreases vars.len(),
{
    if vars.len() == 0 {
    } else if !env_has(env, vars[0]) {
    } else {
        let rest = vars.drop_first();
        lemma_first_missing_characterizes(rest, env);
        assert forall|j: int| 0 <= j < rest.len() implies rest[j] == vars[j + 1] by {}
        match first_missing_spec(rest, env) {
            Option::None => {
                assert(all_present(rest, env));
                assert forall|i: int| 0 <= i < vars.len() implies env_has(env, vars[i]) by {
                    if i > 0 {
                        assert(env_has(env, rest[i - 1]));
                    }
                }
            }
            Option::Some(k) => {
                assert(first_missing_spec(vars, env) == Some(k + 1));
                assert(vars[k + 1] == rest[k]);
                assert(!env_has(env, vars[k + 1]));
                assert forall|j: int| 0 <= j < k + 1 implies env_has(env, vars[j]) by {
                    if j > 0 {
                        assert(rest[j - 1] == vars[j]);
                        assert(env_has(env, rest[j - 1]));
                    }
                }
            }
        }
    }
}

/// If `i` is a missing index and everything before it is present, then `i`
/// is the index whose guard fires.
pub proof fn lemma_first_missing_is(vars: Seq<Seq<char>>, env: Seq<EnvEntry>, i: int)
    requires
        0 <= i < vars.len(),
        !env_has(env, vars[i]),
        forall|j: int| 0 <= j < i ==> env_has(env, vars[j]),
    ensures
        first_missing_spec(vars, env) == Some(i),
    decreases vars.len(),
{
    if i == 0 {
    } else {
        let rest = vars.drop_first();
        assert forall|j: int| 0 <= j < rest.len() implies rest[j] == vars[j + 1] by {}
        assert forall|j: int| 0 <= j < i - 1 implies env_has(env, rest[j]) by {
            assert(rest[j] == vars[j + 1]);
        }
        lemma_first_missing_is(rest, env, i - 1);
    }
}

/// With no required variables no guard ever fires: the generated function
/// prints nothing extra and behaves as the original body.
pub proof fn lemma_no_vars_no_guard(env: Seq<EnvEntry>)
    ensures
        first_missing_spec(Seq::<Seq<char>>::empty(), env) is None,
        guard_diagnostic(Seq::<Seq<char>>::empty(), env) is None,
{
}

/// When every required variable is present, no guard fires and the original
/// body runs with no skip diagnostic.
pub proof fn lemma_all_present_runs(vars: Seq<Seq<char>>, env: Seq<EnvEntry>)
    requires
        all_present(vars, env),
    ensures
        first_missing_spec(vars, env) is None,
        guard_diagnostic(vars, env) is None,
{
    lemma_first_missing_characterizes(vars, env);
    if first_missing_spec(vars, env) is Some {
        let i = first_missing_spec(vars, env)->Some_0;
        assert(env_has(env, vars[i]));
    }
}

/// Guards are checked in declaration order and short-circuit: for the list
/// `[a, b]` with `a` missing, the guard of `a` fires — whether or not `b`
/// is present — and the diagnostic names `a` alone.
pub proof fn lemma_short_circuit_order(a: Seq<char>, b: Seq<char>, env: Seq<EnvEntry>)
    requires
        !env_has(env, a),
    ensures
        first_missing_spec(seq![a, b], env) == Some(0int),
        guard_diagnostic(seq![a, b], env) == Some(skip_message_spec(a)),
{
    lemma_first_missing_is(seq![a, b], env, 0);
}

/// For the list `[a, b, c]` with `a` and `c` present and `b` missing, the
/// guard of `b` fires and the diagnostic names `b` alone; the body does
/// not run.
pub proof fn lemma_middle_missing(a: Seq<char>, b: Seq<char>, c: Seq<char>, env: Seq<EnvEntry>)
    requires
        env_has(env, a),
        !env_has(env, b),
        env_has(env, c),
    ensures
        first_missing_spec(seq![a, b, c], env) == Some(1int),
        guard_diagnostic(seq![a, b, c], env) == Some(skip_message_spec(b)),
{
    lemma_first_missing_is(seq![a, b, c], env, 1);
}

/// Builds the diagnostic line for one missing variable.
pub fn skip_message(name: &str) -> (r: String)
    ensures
        r@ == skip_message_spec(name@),
{
    let mut s = String::from_str("Skipping test: Required environment variable '");
    s.append(name);
    s.append("' not found");
    s
}

/// Whether some entry of the environment binds `name`.
pub fn env_contains(env: &Vec<EnvEntry>, name: &String) -> (r: bool)
    ensures
        r == env_has(env@, name@),
{
    let mut i: usize = 0;
    while i < env.len()
        invariant
            i <= env@.len(),
            forall|j: int| 0 <= j < i ==> env@[j].name@ != name@,
        decreases env@.len() - i,
    {
        if env[i].name == *name {
            return true;
        }
        i += 1;
    }
    false
}

/// The value bound to `name` by the first entry that binds it, if any.
pub fn env_value(env: &Vec<EnvEntry>, name: &String) -> (r: Option<String>)
    ensures
        match r {
            Some(v) => exists|i: int|
                0 <= i < env@.len() && env@[i].name@ == name@ && v@ == env@[i].value@
                    && (forall|j: int| 0 <= j < i ==> env@[j].name@ != name@),
            None => !env_has(env@, name@),
        },
{
    let mut i: usize = 0;
    while i < env.len()
        invariant
            i <= env@.len(),
            forall|j: int| 0 <= j < i ==> env@[j].name@ != name@,
        decreases env@.len() - i,
    {
        if env[i].name == *name {
            return Some(env[i].value.clone());
        }
        i += 1;
    }
    None
}

/// What running the generated guard sequence does for a given environment:
/// either every required variable was present and the original body is to
/// run unchanged, or the guard of the first missing variable fired and the
/// function returns early after printing the returned diagnostic.
pub enum GuardOutcome {
    /// All guards passed; the original body executes, nothing was printed.
    RunBody,
    /// A guard fired: the carried diagnostic is printed and nothing below
    /// it — later guards or the original body — is evaluated.
    Skip(String),
}

/// Runs the guard sequence for `vars`, in list order, against `env`.
pub fn run_guarded(vars: &Vec<String>, env: &Vec<EnvEntry>) -> (r: GuardOutcome)
    ensures
        match r {
            GuardOutcome::RunBody => guard_diagnostic(vars.deep_view(), env@) is None,
            GuardOutcome::Skip(msg) => guard_diagnostic(vars.deep_view(), env@)
                == Some(msg@),
        },
{
    let ghost dv = vars.deep_view();
    let mut i: usize = 0;
    while i < vars.len()
        invariant
            dv == vars.deep_view(),
            dv.len() == vars@.len(),
            i <= vars@.len(),
            forall|j: int| 0 <= j < i ==> env_has(env@, dv[j]),
        decreases vars@.len() - i,
    {
        proof {
            assert(dv[i as int] == vars@[i as int]@);
        }
        if !env_contains(env, &vars[i]) {
            proof {
                lemma_first_missing_is(dv, env@, i as int);
            }
            return GuardOutcome::Skip(skip_message(vars[i].as_str()));
        }
        i += 1;
    }
    proof {
        lemma_all_present_runs(dv, env@);
    }
    GuardOutcome::RunBody
}

} // verus!
