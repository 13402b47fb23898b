//! `{{variable}}` interpolation and request resolution against an
//! environment's variable set.

use vstd::prelude::*;
use crate::domain::{find_environment, EnvVariable, Environment, ResolveRequestPayload, ResolvedRequest};
use crate::strmap::StringMap;
use crate::text::{chars_vec, string_from_chars};

verus! {

/// The first position at or after `from` where two closing braces stand,
/// or -1.
pub open spec fn find_close(text: Seq<char>, from: int) -> int
    decreases text.len() - from,
{
    if from < 0 || from + 2 > text.len() {
        -1
    } else if text[from] == '}' && text[from + 1] == '}' {
        from
    } else {
        find_close(text, from + 1)
    }
}

/// Interpolation of `{{key}}` placeholders, scanning left to right: a
/// known key's placeholder becomes the key's value; anything else is kept
/// as it stands.
pub open spec fn interp(text: Seq<char>, vars: Map<Seq<char>, Seq<char>>) -> Seq<char>
    decreases text.len(),
{
    if text.len() == 0 {
        Seq::empty()
    } else if text.len() >= 2 && text[0] == '{' && text[1] == '{' && find_close(text, 2) >= 0
        && find_close(text, 2) + 2 <= text.len() && vars.contains_key(
        text.subrange(2, find_close(text, 2)),
    ) {
        vars[text.subrange(2, find_close(text, 2))] + interp(
            text.subrange(find_close(text, 2) + 2, text.len() as int),
            vars,
        )
    } else {
        seq![text[0]] + interp(text.drop_first(), vars)
    }
}

/// Searching a suffix finds the same braces, shifted.
pub proof fn lemma_find_close_shift(text: Seq<char>, i: int, from: int)
    requires
        0 <= i <= text.len(),
        0 <= from,
    ensures
        find_close(text.subrange(i, text.len() as int), from) == (if find_close(text, from + i)
            == -1 {
            -1int
        } else {
            find_close(text, from + i) - i
        }),
    decreases text.len() - from - i,
{
    let suf = text.subrange(i, text.len() as int);
    if from + 2 > suf.len() {
    } else if suf[from] == '}' && suf[from + 1] == '}' {
        assert(text[from + i] == suf[from]);
    } else {
        assert(text[from + i] != '}' || text[from + i + 1] != '}');
        lemma_find_close_shift(text, i, from + 1);
    }
}

/// See `interp`.
fn interpolate_chars(text: &Vec<char>, vars: &StringMap) -> (r: Vec<char>)
    ensures
        r@ == interp(text@, vars@),
{
    let n = text.len();
    let mut out: Vec<char> = Vec::new();
    let mut i: usize = 0;
    proof {
        assert(text@.subrange(0, n as int) =~= text@);
    }
    while i < n
        invariant
            0 <= i <= n,
            n == text@.len(),
            out@ + interp(text@.subrange(i as int, n as int), vars@) == interp(text@, vars@),
        decreases n - i,
    {
        let ghost suf = text@.subrange(i as int, n as int);
        let mut close: usize = 0;
        let mut found = false;
        if i + 1 < n && text[i] == '{' && text[i + 1] == '{' {
            let mut j: usize = i + 2;
            while j < n - 1 && !found
                invariant
                    2 <= i + 2 <= j <= n,
                    n == text@.len(),
                    found ==> i + 2 <= close && close + 2 <= n && find_close(text@, i as int + 2)
                        == close,
                    !found ==> forall|k: int|
                        i + 2 <= k < j ==> #[trigger] find_close(text@, k) == find_close(
                            text@,
                            k + 1,
                        ),
                decreases n - j + (if found { 0int } else { 1int }),
            {
                if text[j] == '}' && text[j + 1] == '}' {
                    found = true;
                    proof {
                        assert(find_close(text@, j as int) == j);
                        assert forall|k: int| i + 2 <= k <= j implies find_close(text@, k)
                            == j by {
                            lemma_find_close_chain(text@, k, j as int);
                        };
                    }
                    close = j;
                } else {
                    proof {
                        assert(find_close(text@, j as int) == find_close(text@, j as int + 1));
                    }
                    j += 1;
                }
            }
            proof {
                if !found {
                    assert(find_close(text@, i as int + 2) == -1) by {
                        assert forall|k: int| i + 2 <= k <= j implies find_close(text@, k)
                            == find_close(text@, j as int) by {
                            lemma_find_close_chain2(text@, k, j as int);
                        };
                        assert(find_close(text@, j as int) == -1);
                    };
                }
            }
        }
        proof {
            lemma_find_close_shift(text@, i as int, 2);
        }
        if found {
            let key_chars = text_slice(text, i + 2, close);
            let key = string_from_chars(&key_chars);
            match vars.get(key.as_str()) {
                Some(v) => {
                    proof {
                        assert(suf.subrange(2, close - i as int) =~= text@.subrange(
                            i as int + 2,
                            close as int,
                        ));
                        assert(suf.subrange(close - i as int + 2, suf.len() as int) =~= text@
                            .subrange(close as int + 2, n as int));
                    }
                    let vchars = chars_vec(v.as_str());
                    let ghost oldout = out@;
                    let mut vi: usize = 0;
                    let vn = vchars.len();
                    while vi < vn
                        invariant
                            0 <= vi <= vn,
                            vn == vchars@.len(),
                            out@ == oldout + vchars@.subrange(0, vi as int),
                        decreases vn - vi,
                    {
                        out.push(vchars[vi]);
                        proof {
                            assert(vchars@.subrange(0, vi as int + 1) =~= vchars@.subrange(
                                0,
                                vi as int,
                            ).push(vchars@[vi as int]));
                        }
                        vi += 1;
                    }
                    proof {
                        assert(vchars@.subrange(0, vn as int) =~= vchars@);
                        assert(out@ =~= oldout + vchars@);
                        assert(interp(suf, vars@) == vars@[suf.subrange(2, close - i as int)]
                            + interp(suf.subrange(close - i as int + 2, suf.len() as int), vars@));
                        assert(out@ + interp(text@.subrange(close as int + 2, n as int), vars@)
                            =~= interp(text@, vars@));
                    }
                    i = close + 2;
                },
                None => {
                    let ghost oldout = out@;
                    out.push('{');
                    proof {
                        assert(suf.subrange(2, close - i as int) =~= text@.subrange(
                            i as int + 2,
                            close as int,
                        ));
                        assert(interp(suf, vars@) == seq!['{'] + interp(suf.drop_first(), vars@));
                        assert(suf.drop_first() =~= text@.subrange(i as int + 1, n as int));
                        assert(out@ =~= oldout.push('{'));
                        assert(out@ + interp(text@.subrange(i as int + 1, n as int), vars@)
                            =~= interp(text@, vars@));
                    }
                    i = i + 1;
                },
            }
        } else {
            let c = text[i];
            let ghost oldout = out@;
            out.push(c);
            proof {
                assert(interp(suf, vars@) == seq![suf[0]] + interp(suf.drop_first(), vars@));
                assert(suf.drop_first() =~= text@.subrange(i as int + 1, n as int));
                assert(out@ =~= oldout.push(c));
                assert(out@ + interp(text@.subrange(i as int + 1, n as int), vars@) =~= interp(
                    text@,
                    vars@,
                ));
            }
            i = i + 1;
        }
    }
    proof {
        assert(text@.subrange(n as int, n as int) =~= Seq::<char>::empty());
        assert(out@ + interp(Seq::<char>::empty(), vars@) =~= out@);
    }
    out
}

/// Stepping the search start over a non-match keeps the found position.
proof fn lemma_find_close_chain(text: Seq<char>, k: int, j: int)
    requires
        0 <= k <= j,
        forall|m: int| k <= m < j ==> #[trigger] find_close(text, m) == find_close(text, m + 1),
        find_close(text, j) == j,
    ensures
        find_close(text, k) == j,
    decreases j - k,
{
    if k < j {
        lemma_find_close_chain(text, k + 1, j);
    }
}

proof fn lemma_find_close_chain2(text: Seq<char>, k: int, j: int)
    requires
        0 <= k <= j,
        forall|m: int| k <= m < j ==> #[trigger] find_close(text, m) == find_close(text, m + 1),
    ensures
        find_close(text, k) == find_close(text, j),
    decreases j - k,
{
    if k < j {
        lemma_find_close_chain2(text, k + 1, j);
    }
}

/// The characters of `text` between `from` and `to`.
fn text_slice(text: &Vec<char>, from: usize, to: usize) -> (r: Vec<char>)
    requires
        from <= to <= text@.len(),
    ensures
        r@ == text@.subrange(from as int, to as int),
{
    let mut r: Vec<char> = Vec::new();
    let mut i = from;
    while i < to
        invariant
            from <= i <= to <= text@.len(),
            r@ =~= text@.subrange(from as int, i as int),
        decreases to - i,
    {
        r.push(text[i]);
        proof {
            assert(text@.subrange(from as int, i as int + 1) =~= text@.subrange(
                from as int,
                i as int,
            ).push(text@[i as int]));
        }
        i += 1;
    }
    r
}

/// Interpolate `{{key}}` placeholders in the given text; unknown
/// placeholders are kept as they stand.
pub fn interpolate(input: &str, variables: &StringMap) -> (r: String)
    ensures
        r@ == interp(input@, variables@),
{
    let cs = chars_vec(input);
    let out = interpolate_chars(&cs, variables);
    string_from_chars(&out)
}

/// The variable map a list defines over a base map: enabled variables with
/// non-empty keys, later entries overriding earlier ones.
pub open spec fn vars_fold(s: Seq<EnvVariable>, base: Map<Seq<char>, Seq<char>>) -> Map<
    Seq<char>,
    Seq<char>,
>
    decreases s.len(),
{
    if s.len() == 0 {
        base
    } else {
        let m = vars_fold(s.drop_last(), base);
        if s.last().enabled && s.last().key@.len() > 0 {
            m.insert(s.last().key@, s.last().value@)
        } else {
            m
        }
    }
}

/// Build a merged variable map from global variables and the chosen
/// environment's variables; environment variables override globals.
pub fn build_variable_map(
    global_variables: &Vec<EnvVariable>,
    environment: Option<&Environment>,
) -> (r: StringMap)
    ensures
        r@ == (match environment {
            Some(env) => vars_fold(
                env.variables@,
                vars_fold(global_variables@, Map::<Seq<char>, Seq<char>>::empty()),
            ),
            None => vars_fold(global_variables@, Map::<Seq<char>, Seq<char>>::empty()),
        }),
{
    let mut variables = StringMap::new();
    apply_variables(&mut variables, global_variables);
    if let Some(env) = environment {
        apply_variables(&mut variables, &env.variables);
    }
    variables
}

/// Fold a variable list into the map.
fn apply_variables(variables: &mut StringMap, list: &Vec<EnvVariable>)
    ensures
        final(variables)@ == vars_fold(list@, old(variables)@),
{
    let n = list.len();
    let mut i: usize = 0;
    while i < n
        invariant
            0 <= i <= n,
            n == list@.len(),
            variables@ == vars_fold(list@.subrange(0, i as int), old(variables)@),
        decreases n - i,
    {
        let v = &list[i];
        proof {
            assert(list@.subrange(0, i as int + 1).drop_last() =~= list@.subrange(0, i as int));
            assert(list@.subrange(0, i as int + 1).last() == list@[i as int]);
        }
        if v.enabled && !v.key.as_str().is_empty() {
            variables.insert(v.key.clone(), v.value.clone());
        }
        i += 1;
    }
    proof {
        assert(list@.subrange(0, n as int) =~= list@);
    }
}

/// The variable map a resolution uses: the global variables, overridden
/// by the variables of the environment the payload names (the first one
/// with that identifier), when it names one and it exists.
pub open spec fn resolve_vars(
    payload: ResolveRequestPayload,
    globals: Seq<EnvVariable>,
    environments: Seq<Environment>,
) -> Map<Seq<char>, Seq<char>> {
    let base = vars_fold(globals, Map::<Seq<char>, Seq<char>>::empty());
    match payload.environment_id {
        Some(id) => match crate::domain::spec_find_env_by_id(environments, id@) {
            Some(env) => vars_fold(env.variables@, base),
            None => base,
        },
        None => base,
    }
}

/// Resolve all `{{var}}` placeholders in a request payload, using the
/// chosen environment's variables over the globals.
pub fn resolve_request(
    payload: &ResolveRequestPayload,
    global_variables: &Vec<EnvVariable>,
    environments: &Vec<Environment>,
) -> (r: ResolvedRequest)
    ensures
        ({
            let vm = resolve_vars(*payload, global_variables@, environments@);
            &&& r.url@ == interp(payload.url@, vm)
            &&& r.method@ == payload.method@
            &&& r.headers@.len() == payload.headers@.len()
            &&& (forall|i: int|
                0 <= i < r.headers@.len() ==> ((#[trigger] r.headers@[i]).0@) == interp(
                    payload.headers@[i].0@,
                    vm,
                ) && r.headers@[i].1@ == interp(payload.headers@[i].1@, vm))
            &&& (match (r.body, payload.body) {
                (Some(b), Some(pb)) => b@ == interp(pb@, vm),
                (None, None) => true,
                _ => false,
            })
        }),
{
    let env = match &payload.environment_id {
        Some(id) => find_environment(environments, id.as_str()),
        None => None,
    };
    let variables = build_variable_map(global_variables, env);
    let url = interpolate(payload.url.as_str(), &variables);
    let method = payload.method.clone();
    let mut headers: Vec<(String, String)> = Vec::new();
    let hn = payload.headers.len();
    let mut i: usize = 0;
    while i < hn
        invariant
            0 <= i <= hn,
            hn == payload.headers@.len(),
            headers@.len() == i,
            forall|j: int|
                0 <= j < i ==> ((#[trigger] headers@[j]).0@) == interp(
                    payload.headers@[j].0@,
                    variables@,
                ) && headers@[j].1@ == interp(payload.headers@[j].1@, variables@),
        decreases hn - i,
    {
        let k = interpolate(payload.headers[i].0.as_str(), &variables);
        let v = interpolate(payload.headers[i].1.as_str(), &variables);
        headers.push((k, v));
        i += 1;
    }
    let body = match &payload.body {
        Some(b) => Some(interpolate(b.as_str(), &variables)),
        None => None,
    };
    let r = ResolvedRequest { url, method, headers, body };
    proof {
        assert(variables@ == resolve_vars(*payload, global_variables@, environments@));
    }
    r
}

} // verus!
