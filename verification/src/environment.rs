//! Environment variables that are handed to the supervisor of a sandbox.
use vstd::prelude::*;
use vstd::string::*;
use crate::compute::{DriverSandbox, DriverSandboxSpecView, DriverSandboxView};
use crate::string_map;
use crate::string_map::StringMap;
use crate::text;

verus! {

/// Adds a variable.
pub fn push_var(env: &mut Vec<(String, String)>, key: &str, value: &str)
    ensures
        text::pair_views(final(env)@) == text::pair_views(old(env)@).push((key@, value@)),
{
    let ghost before = text::pair_views(env@);
    env.push((key.to_owned(), value.to_owned()));
    proof {
        assert(text::pair_views(env@) =~= before.push((key@, value@)));
    }
}

/// Adds all variables of a map, in the order of their names.
pub fn push_vars(env: &mut Vec<(String, String)>, vars: &StringMap<String>)
    ensures
        text::pair_views(final(env)@) == text::pair_views(old(env)@) + string_map::text_pairs(*vars),
{
    let ghost all = string_map::text_pairs(*vars);
    let mut i: usize = 0;
    proof {
        assert(text::pair_views(env@) =~= text::pair_views(old(env)@) + all.take(0));
    }
    while i < vars.len()
        invariant
            i <= vars.pairs().len(),
            all == string_map::text_pairs(*vars),
            text::pair_views(env@) == text::pair_views(old(env)@) + all.take(i as int),
        decreases vars.pairs().len() - i,
    {
        push_var(env, vars.key_at(i), vars.value_at(i).as_str());
        i = i + 1;
        proof {
            assert(text::pair_views(env@) =~= text::pair_views(old(env)@) + all.take(i as int));
        }
    }
    proof {
        assert(all.take(all.len() as int) =~= all);
    }
}

/// The variables that the user asks for: those of the template and those of the
/// specification, each in the order of the names.
pub open spec fn requested_vars(spec: Option<DriverSandboxSpecView>) -> Seq<(Seq<char>, Seq<char>)> {
    match spec {
        None => Seq::empty(),
        Some(s) => (match s.template {
            Some(t) => t.environment,
            None => Seq::empty(),
        }) + s.environment,
    }
}

/// The variables of a supervisor that runs as a process of a host.
pub open spec fn process_vars(
    sandbox: DriverSandboxView,
    log_level: Seq<char>,
    grpc_endpoint: Seq<char>,
    ssh_socket_path: Seq<char>,
) -> Seq<(Seq<char>, Seq<char>)> {
    seq![
        ("HOME"@, "/root"@),
        ("TERM"@, "xterm"@),
        ("OPENSHELL_LOG_LEVEL"@, log_level),
        ("OPENSHELL_ENDPOINT"@, grpc_endpoint),
        ("OPENSHELL_SANDBOX_ID"@, sandbox.id),
        ("OPENSHELL_SANDBOX"@, sandbox.name),
        ("OPENSHELL_SSH_SOCKET_PATH"@, ssh_socket_path),
        ("OPENSHELL_SANDBOX_COMMAND"@, "sleep infinity"@),
    ] + requested_vars(sandbox.spec)
}

/// Builds the variables of a supervisor that runs as a process of a host.
pub fn process_env(
    sandbox: &DriverSandbox,
    log_level: &str,
    grpc_endpoint: &str,
    ssh_socket_path: &str,
) -> (r: Vec<(String, String)>)
    ensures
        text::pair_views(r@) == process_vars(sandbox@, log_level@, grpc_endpoint@, ssh_socket_path@),
{
    let mut env: Vec<(String, String)> = Vec::new();
    push_var(&mut env, "HOME", "/root");
    push_var(&mut env, "TERM", "xterm");
    push_var(&mut env, "OPENSHELL_LOG_LEVEL", log_level);
    push_var(&mut env, "OPENSHELL_ENDPOINT", grpc_endpoint);
    push_var(&mut env, "OPENSHELL_SANDBOX_ID", sandbox.id.as_str());
    push_var(&mut env, "OPENSHELL_SANDBOX", sandbox.name.as_str());
    push_var(&mut env, "OPENSHELL_SSH_SOCKET_PATH", ssh_socket_path);
    push_var(&mut env, "OPENSHELL_SANDBOX_COMMAND", "sleep infinity");
    if let Some(spec) = &sandbox.spec {
        if let Some(template) = &spec.template {
            push_vars(&mut env, &template.environment);
        }
        push_vars(&mut env, &spec.environment);
    }
    proof {
        assert(text::pair_views(env@) =~= process_vars(
            sandbox@,
            log_level@,
            grpc_endpoint@,
            ssh_socket_path@,
        ));
    }
    env
}

/// What a variable holds once all of the list were set, one after the other.
pub open spec fn value_in(vars: Seq<(Seq<char>, Seq<char>)>, key: Seq<char>) -> Option<Seq<char>>
    decreases vars.len(),
{
    if vars.len() == 0 {
        None
    } else if vars.last().0 == key {
        Some(vars.last().1)
    } else {
        value_in(vars.drop_last(), key)
    }
}

/// Whether a list sets a variable.
pub open spec fn sets(vars: Seq<(Seq<char>, Seq<char>)>, key: Seq<char>) -> bool {
    exists|i: int| 0 <= i < vars.len() && (#[trigger] vars[i]).0 == key
}

/// Of two lists, the second counts more.
pub proof fn later_settings_win(
    a: Seq<(Seq<char>, Seq<char>)>,
    b: Seq<(Seq<char>, Seq<char>)>,
    key: Seq<char>,
)
    ensures
        value_in(a + b, key) == (if sets(b, key) {
            value_in(b, key)
        } else {
            value_in(a, key)
        }),
        sets(b, key) == (value_in(b, key) is Some),
    decreases b.len(),
{
    if b.len() == 0 {
        assert(a + b =~= a);
    } else {
        let front = b.drop_last();
        later_settings_win(a, front, key);
        assert((a + b).drop_last() =~= a + front);
        if b.last().0 == key {
            assert(b[b.len() - 1].0 == key);
        } else {
            if sets(b, key) {
                let i = choose|i: int| 0 <= i < b.len() && (#[trigger] b[i]).0 == key;
                assert(front[i].0 == key);
            }
            if sets(front, key) {
                let i = choose|i: int| 0 <= i < front.len() && (#[trigger] front[i]).0 == key;
                assert(b[i].0 == key);
            }
        }
    }
}

/// A variable that is set once holds what it is set to.
pub proof fn single_setting_holds(vars: Seq<(Seq<char>, Seq<char>)>, i: int)
    requires
        0 <= i < vars.len(),
        forall|j: int| 0 <= j < vars.len() && j != i ==> (#[trigger] vars[j]).0 != vars[i].0,
    ensures
        value_in(vars, vars[i].0) == Some(vars[i].1),
    decreases vars.len(),
{
    if i < vars.len() - 1 {
        let front = vars.drop_last();
        assert forall|j: int| 0 <= j < front.len() && j != i implies (#[trigger] front[j]).0
            != front[i].0 by {
            assert(vars[j] == front[j]);
        }
        assert(vars[vars.len() - 1].0 != vars[i].0);
        single_setting_holds(front, i);
    }
}

} // verus!
