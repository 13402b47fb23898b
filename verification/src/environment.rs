//! The variable system of the client: global, environment and
//! collection-scoped variables with `{{variable}}` interpolation.

use vstd::prelude::*;
use crate::envres::{interp, interpolate};
use crate::strmap::StringMap;
use crate::text::str_eq;

verus! {

/// Scope at which a variable is defined.
#[derive(Clone, Copy, PartialEq, Eq, Structural, Debug)]
pub enum VariableScope {
    Global,
    Environment,
    Collection,
}

/// A single variable entry.
pub struct Variable {
    pub key: String,
    pub value: String,
    pub scope: VariableScope,
    pub enabled: bool,
}

/// An environment is a named set of variables.
pub struct Environment {
    pub name: String,
    pub variables: Vec<Variable>,
}

/// Manages all environments and resolves variables.
pub struct EnvironmentManager {
    pub globals: Vec<Variable>,
    pub environments: Vec<Environment>,
    pub active_environment: Option<String>,
}

/// The map a variable list defines over a base map: enabled variables,
/// later entries overriding earlier ones.
pub open spec fn scoped_vars_fold(s: Seq<Variable>, base: Map<Seq<char>, Seq<char>>) -> Map<
    Seq<char>,
    Seq<char>,
>
    decreases s.len(),
{
    if s.len() == 0 {
        base
    } else {
        let m = scoped_vars_fold(s.drop_last(), base);
        if s.last().enabled {
            m.insert(s.last().key@, s.last().value@)
        } else {
            m
        }
    }
}

/// The first environment with the given name.
pub open spec fn spec_find_env(s: Seq<Environment>, name: Seq<char>) -> Option<Environment>
    decreases s.len(),
{
    if s.len() == 0 {
        None
    } else if s[0].name@ == name {
        Some(s[0])
    } else {
        spec_find_env(s.drop_first(), name)
    }
}

impl EnvironmentManager {
    /// The flat variable map the manager resolves, respecting scope
    /// precedence: collection variables, overridden by the active
    /// environment's variables, overridden by globals.
    pub open spec fn spec_resolved(&self, collection: Map<Seq<char>, Seq<char>>) -> Map<
        Seq<char>,
        Seq<char>,
    > {
        let with_env = match self.active_environment {
            Some(active) => match spec_find_env(self.environments@, active@) {
                Some(env) => scoped_vars_fold(env.variables@, collection),
                None => collection,
            },
            None => collection,
        };
        scoped_vars_fold(self.globals@, with_env)
    }

    /// Resolve all variables into a flat map; higher scopes override
    /// lower ones.
    pub fn resolve(&self, collection_vars: &StringMap) -> (r: StringMap)
        ensures
            r@ == self.spec_resolved(collection_vars@),
    {
        let mut resolved = collection_vars.clone();
        if let Some(active) = &self.active_environment {
            if let Some(env) = find_env_by_name(&self.environments, active.as_str()) {
                apply_scoped_variables(&mut resolved, &env.variables);
            }
        }
        apply_scoped_variables(&mut resolved, &self.globals);
        resolved
    }

    /// Interpolate `{{variable}}` placeholders in the given text.
    pub fn interpolate(&self, text: &str, variables: &StringMap) -> (r: String)
        ensures
            r@ == interp(text@, variables@),
    {
        interpolate(text, variables)
    }
}

impl Default for EnvironmentManager {
    fn default() -> (r: Self)
        ensures
            r.globals@.len() == 0,
            r.environments@.len() == 0,
            r.active_environment is None,
    {
        EnvironmentManager { globals: Vec::new(), environments: Vec::new(), active_environment: None }
    }
}

/// The first environment with the given name, if any.
fn find_env_by_name<'a>(environments: &'a Vec<Environment>, name: &str) -> (r: Option<
    &'a Environment,
>)
    ensures
        match r {
            Some(env) => spec_find_env(environments@, name@) == Some(*env),
            None => spec_find_env(environments@, name@) is None,
        },
{
    let n = environments.len();
    let mut i: usize = 0;
    proof {
        assert(environments@.subrange(0, n as int) =~= environments@);
    }
    while i < n
        invariant
            0 <= i <= n,
            n == environments@.len(),
            spec_find_env(environments@, name@) == spec_find_env(
                environments@.subrange(i as int, n as int),
                name@,
            ),
        decreases n - i,
    {
        proof {
            assert(environments@.subrange(i as int, n as int)[0] == environments@[i as int]);
            assert(environments@.subrange(i as int, n as int).drop_first() =~= environments@
                .subrange(i as int + 1, n as int));
        }
        if str_eq(environments[i].name.as_str(), name) {
            return Some(&environments[i]);
        }
        i += 1;
    }
    proof {
        assert(environments@.subrange(n as int, n as int) =~= Seq::<Environment>::empty());
    }
    None
}

/// Fold a scoped variable list into the map.
fn apply_scoped_variables(variables: &mut StringMap, list: &Vec<Variable>)
    ensures
        final(variables)@ == scoped_vars_fold(list@, old(variables)@),
{
    let n = list.len();
    let mut i: usize = 0;
    while i < n
        invariant
            0 <= i <= n,
            n == list@.len(),
            variables@ == scoped_vars_fold(list@.subrange(0, i as int), old(variables)@),
        decreases n - i,
    {
        let v = &list[i];
        proof {
            assert(list@.subrange(0, i as int + 1).drop_last() =~= list@.subrange(0, i as int));
            assert(list@.subrange(0, i as int + 1).last() == list@[i as int]);
        }
        if v.enabled {
            variables.insert(v.key.clone(), v.value.clone());
        }
        i += 1;
    }
    proof {
        assert(list@.subrange(0, n as int) =~= list@);
    }
}

} // verus!
