//! `${VAR}` placeholder substitution for header template strings.
//!
//! The template is scanned left to right. Each `${NAME}` placeholder is
//! replaced by the environment value of `NAME`, or by the empty string when
//! `NAME` is unbound. An opening `${` with no `}` after it ends the scan and
//! the remainder of the string is kept verbatim. Spliced-in values are not
//! scanned again, so substitution is textual and non-nested.

use vstd::prelude::*;
use crate::envtable::EnvVars;

verus! {

/// Index of the first `${` marker at or after `from`, if any.
pub open spec fn find_marker_from(s: Seq<char>, from: int) -> Option<int>
    decreases s.len() - from,
{
    if from < 0 || from + 1 >= s.len() {
        None
    } else if s[from] == '$' && s[from + 1] == '{' {
        Some(from)
    } else {
        find_marker_from(s, from + 1)
    }
}

/// Index of the first `}` at or after `from`, if any.
pub open spec fn find_close_from(s: Seq<char>, from: int) -> Option<int>
    decreases s.len() - from,
{
    if from < 0 || from >= s.len() {
        None
    } else if s[from] == '}' {
        Some(from)
    } else {
        find_close_from(s, from + 1)
    }
}

pub proof fn lemma_find_marker_bounds(s: Seq<char>, from: int, k: int)
    requires
        find_marker_from(s, from) == Some(k),
    ensures
        from <= k,
        k + 1 < s.len(),
        s[k] == '$',
        s[k + 1] == '{',
        forall|m: int| from <= m < k ==> !((#[trigger] s[m]) == '$' && s[m + 1] == '{'),
    decreases s.len() - from,
{
    if from < 0 || from + 1 >= s.len() {
    } else if s[from] == '$' && s[from + 1] == '{' {
    } else {
        lemma_find_marker_bounds(s, from + 1, k);
    }
}

pub proof fn lemma_find_close_bounds(s: Seq<char>, from: int, k: int)
    requires
        find_close_from(s, from) == Some(k),
    ensures
        from <= k,
        k < s.len(),
        s[k] == '}',
        forall|m: int| from <= m < k ==> s[m] != '}',
    decreases s.len() - from,
{
    if from < 0 || from >= s.len() {
    } else if s[from] == '}' {
    } else {
        lemma_find_close_bounds(s, from + 1, k);
    }
}

/// The environment value spliced in for a placeholder: the bound value, or
/// the empty string for an unbound name.
pub open spec fn splice_value(env: EnvVars, name: Seq<char>) -> Seq<char> {
    match env.lookup(name) {
        Some(v) => v,
        None => Seq::empty(),
    }
}

/// The result of substituting every `${NAME}` placeholder in `s` by the value
/// of `NAME` in `env` (empty when unbound), left to right, leaving everything
/// from an unterminated `${` on verbatim.
pub open spec fn subst(s: Seq<char>, env: EnvVars) -> Seq<char>
    decreases s.len()
        via subst_decreases
{
    match find_marker_from(s, 0) {
        None => s,
        Some(i) => match find_close_from(s, i + 2) {
            None => s,
            Some(j) => s.take(i) + splice_value(env, s.subrange(i + 2, j)) + subst(
                s.skip(j + 1),
                env,
            ),
        },
    }
}

#[via_fn]
proof fn subst_decreases(s: Seq<char>, env: EnvVars) {
    match find_marker_from(s, 0) {
        None => {},
        Some(i) => {
            lemma_find_marker_bounds(s, 0, i);
            match find_close_from(s, i + 2) {
                None => {},
                Some(j) => {
                    lemma_find_close_bounds(s, i + 2, j);
                },
            }
        },
    }
}

proof fn lemma_no_marker_found(s: Seq<char>, from: int)
    requires
        0 <= from,
        forall|m: int| from <= m < s.len() - 1 ==> !((#[trigger] s[m]) == '$' && s[m + 1] == '{'),
    ensures
        find_marker_from(s, from) is None,
    decreases s.len() - from,
{
    if from + 1 >= s.len() {
    } else {
        lemma_no_marker_found(s, from + 1);
    }
}

/// A template with no `${` marker anywhere is returned unchanged by
/// substitution, whatever the environment holds.
pub proof fn lemma_subst_without_placeholder(s: Seq<char>, env: EnvVars)
    requires
        forall|m: int| 0 <= m < s.len() - 1 ==> !((#[trigger] s[m]) == '$' && s[m + 1] == '{'),
    ensures
        subst(s, env) == s,
{
    lemma_no_marker_found(s, 0);
}

/// A template whose first `${` marker has no `}` after it is returned
/// unchanged by substitution, whatever the environment holds.
pub proof fn lemma_subst_unterminated(s: Seq<char>, env: EnvVars, i: int)
    requires
        find_marker_from(s, 0) == Some(i),
        find_close_from(s, i + 2) is None,
    ensures
        subst(s, env) == s,
{
}

/// Exact mirror of `find_marker_from` on a string slice.
fn find_marker(s: &str, from: usize) -> (r: Option<usize>)
    requires
        from <= s@.len(),
    ensures
        match r {
            Some(k) => find_marker_from(s@, from as int) == Some(k as int),
            None => find_marker_from(s@, from as int) is None,
        },
{
    let len = s.unicode_len();
    let mut i = from;
    while i < len && i + 1 < len
        invariant
            from <= i <= len,
            len == s@.len(),
            find_marker_from(s@, from as int) == find_marker_from(s@, i as int),
        decreases len - i,
    {
        if s.get_char(i) == '$' && s.get_char(i + 1) == '{' {
            return Some(i);
        }
        i = i + 1;
    }
    None
}

/// Exact mirror of `find_close_from` on a string slice.
fn find_close(s: &str, from: usize) -> (r: Option<usize>)
    requires
        from <= s@.len(),
    ensures
        match r {
            Some(k) => find_close_from(s@, from as int) == Some(k as int),
            None => find_close_from(s@, from as int) is None,
        },
{
    let len = s.unicode_len();
    let mut i = from;
    while i < len
        invariant
            from <= i <= len,
            len == s@.len(),
            find_close_from(s@, from as int) == find_close_from(s@, i as int),
        decreases len - i,
    {
        if s.get_char(i) == '}' {
            return Some(i);
        }
        i = i + 1;
    }
    None
}

/// Substitutes `${VAR}` placeholders in `input` using the bindings in `env`.
pub fn substitute_env_vars(input: &str, env: &EnvVars) -> (r: String)
    ensures
        r@ == subst(input@, *env),
{
    let mut out = String::new();
    let mut rest = String::from_str(input);
    proof {
        assert(out@ + subst(rest@, *env) =~= subst(input@, *env));
    }
    loop
        invariant
            subst(input@, *env) == out@ + subst(rest@, *env),
        decreases rest@.len(),
    {
        let ghost rest0 = rest@;
        let ghost out0 = out@;
        let rest_len = rest.as_str().unicode_len();
        match find_marker(rest.as_str(), 0) {
            None => {
                out.append(rest.as_str());
                return out;
            },
            Some(i) => {
                proof {
                    lemma_find_marker_bounds(rest0, 0, i as int);
                }
                match find_close(rest.as_str(), i + 2) {
                    None => {
                        out.append(rest.as_str());
                        return out;
                    },
                    Some(j) => {
                        proof {
                            lemma_find_close_bounds(rest0, i as int + 2, j as int);
                        }
                        out.append(rest.as_str().substring_char(0, i));
                        let name = rest.as_str().substring_char(i + 2, j);
                        proof {
                            assert(rest0.subrange(0, i as int) =~= rest0.take(i as int));
                            assert(name@ == rest0.subrange(i as int + 2, j as int));
                        }
                        match env.get(name) {
                            Some(v) => {
                                out.append(v.as_str());
                                proof {
                                    assert(out@ =~= out0 + rest0.take(i as int) + splice_value(
                                        *env,
                                        rest0.subrange(i as int + 2, j as int),
                                    ));
                                }
                            },
                            None => {
                                proof {
                                    assert(out@ =~= out0 + rest0.take(i as int) + splice_value(
                                        *env,
                                        rest0.subrange(i as int + 2, j as int),
                                    ));
                                }
                            },
                        }
                        let new_rest = String::from_str(
                            rest.as_str().substring_char(j + 1, rest_len),
                        );
                        rest = new_rest;
                        proof {
                            assert(rest@ =~= rest0.skip(j as int + 1));
                            assert(subst(rest0, *env) == rest0.take(i as int) + splice_value(
                                *env,
                                rest0.subrange(i as int + 2, j as int),
                            ) + subst(rest0.skip(j as int + 1), *env));
                            assert(out@ + subst(rest@, *env) =~= out0 + subst(rest0, *env));
                        }
                    },
                }
            },
        }
    }
}

} // verus!
