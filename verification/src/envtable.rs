//! A snapshot of environment variables, handed to every resolution operation.
//!
//! The process environment is ambient, unsynchronized state; the resolver
//! instead takes an explicit table of name/value bindings, so every operation
//! is a pure function of its arguments and callers can supply deterministic
//! environments.

use vstd::prelude::*;
use crate::strutil::str_eq;

verus! {

/// An explicit table of environment-variable bindings.
pub struct EnvVars {
    pub vars: Vec<(String, String)>,
}

/// The value of the first binding of `name` in `entries`, if any.
pub open spec fn lookup_in(entries: Seq<(String, String)>, name: Seq<char>) -> Option<Seq<char>>
    decreases entries.len(),
{
    if entries.len() == 0 {
        None
    } else if entries[0].0@ == name {
        Some(entries[0].1@)
    } else {
        lookup_in(entries.drop_first(), name)
    }
}

impl EnvVars {
    /// The value bound to `name`, if any.
    pub open spec fn lookup(&self, name: Seq<char>) -> Option<Seq<char>> {
        lookup_in(self.vars@, name)
    }

    /// An empty environment.
    pub fn new() -> (r: EnvVars)
        ensures
            r.vars@.len() == 0,
            forall|n: Seq<char>| r.lookup(n) is None,
    {
        EnvVars { vars: Vec::new() }
    }

    /// Adds a binding. An earlier binding of the same name keeps precedence,
    /// matching a lookup that scans the table front to back.
    pub fn push(&mut self, name: String, value: String)
        ensures
            final(self).vars@ == old(self).vars@.push((name, value)),
    {
        self.vars.push((name, value));
    }

    /// Looks `name` up in the table.
    pub fn get(&self, name: &str) -> (r: Option<String>)
        ensures
            match r {
                Some(v) => self.lookup(name@) == Some(v@),
                None => self.lookup(name@) is None,
            },
    {
        let n = self.vars.len();
        proof {
            assert(self.vars@.skip(0) =~= self.vars@);
        }
        for i in 0..n
            invariant
                n == self.vars@.len(),
                lookup_in(self.vars@, name@) == lookup_in(self.vars@.skip(i as int), name@),
        {
            if str_eq(self.vars[i].0.as_str(), name) {
                proof {
                    assert(self.vars@.skip(i as int)[0] == self.vars@[i as int]);
                }
                return Some(self.vars[i].1.clone());
            }
            proof {
                assert(self.vars@.skip(i as int)[0] == self.vars@[i as int]);
                assert(self.vars@.skip(i as int).drop_first() =~= self.vars@.skip(i + 1));
            }
        }
        None
    }
}

} // verus!
