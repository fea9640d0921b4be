//! The resolved header mapping and the process-wide header block.
//!
//! Headers come from two sources: the per-profile template map, and a
//! process-wide block held in one environment variable as newline-separated
//! `Name: Value` lines. Both are substituted and merged into one mapping in
//! which the later writer wins.

use vstd::prelude::*;
use crate::envtable::EnvVars;
use crate::envtable::lookup_in;
use crate::strutil::find_char;
use crate::strutil::find_char_from;
use crate::strutil::lemma_find_char_bounds;
use crate::strutil::str_eq;
use crate::strutil::trim_spec;
use crate::subst::subst;

verus! {

/// Unique header names, so that a lookup is unambiguous.
pub open spec fn unique_keys(es: Seq<(String, String)>) -> bool {
    forall|p: int, q: int| 0 <= p < q < es.len() ==> es[p].0@ != es[q].0@
}

/// A mapping of header name to resolved value, with unique names.
pub struct HeaderMap {
    pub entries: Vec<(String, String)>,
}

proof fn lemma_lookup_push_same(es: Seq<(String, String)>, pair: (String, String))
    requires
        forall|m: int| 0 <= m < es.len() ==> es[m].0@ != pair.0@,
    ensures
        lookup_in(es.push(pair), pair.0@) == Some(pair.1@),
    decreases es.len(),
{
    if es.len() == 0 {
        assert(es.push(pair)[0] == pair);
    } else {
        assert(es.push(pair)[0] == es[0]);
        assert(es.push(pair).drop_first() =~= es.drop_first().push(pair));
        lemma_lookup_push_same(es.drop_first(), pair);
    }
}

proof fn lemma_lookup_push_other(es: Seq<(String, String)>, pair: (String, String), n: Seq<char>)
    requires
        n != pair.0@,
    ensures
        lookup_in(es.push(pair), n) == lookup_in(es, n),
    decreases es.len(),
{
    if es.len() == 0 {
        assert(es.push(pair)[0] == pair);
        assert(es.push(pair).drop_first() =~= Seq::<(String, String)>::empty());
        assert(lookup_in(Seq::<(String, String)>::empty(), n) is None);
    } else {
        assert(es.push(pair)[0] == es[0]);
        assert(es.push(pair).drop_first() =~= es.drop_first().push(pair));
        lemma_lookup_push_other(es.drop_first(), pair, n);
    }
}

proof fn lemma_lookup_update(es: Seq<(String, String)>, i: int, pair: (String, String), n: Seq<char>)
    requires
        0 <= i < es.len(),
        es[i].0@ == pair.0@,
        unique_keys(es),
    ensures
        lookup_in(es.update(i, pair), n) == if n == pair.0@ {
            Some(pair.1@)
        } else {
            lookup_in(es, n)
        },
    decreases es.len(),
{
    let u = es.update(i, pair);
    if i == 0 {
        assert(u[0] == pair);
        if n != pair.0@ {
            assert(u.drop_first() =~= es.drop_first());
        }
    } else {
        assert(u[0] == es[0]);
        assert(u.drop_first() =~= es.drop_first().update(i - 1, pair));
        assert(unique_keys(es.drop_first())) by {
            assert(forall|p: int, q: int|
                0 <= p < q < es.drop_first().len() ==> es.drop_first()[p].0@ == es[p + 1].0@
                    && es.drop_first()[q].0@ == es[q + 1].0@);
        }
        assert(es.drop_first()[i - 1].0@ == es[i].0@);
        lemma_lookup_update(es.drop_first(), i - 1, pair, n);
        if es[0].0@ == n && n == pair.0@ {
            assert(es[0].0@ != es[i].0@);
        }
    }
}

impl HeaderMap {
    /// Header names are unique, so that a lookup is unambiguous.
    pub open spec fn wf(&self) -> bool {
        unique_keys(self.entries@)
    }

    /// The value mapped to `name`, if any.
    pub open spec fn lookup(&self, name: Seq<char>) -> Option<Seq<char>> {
        lookup_in(self.entries@, name)
    }

    /// An empty mapping.
    pub fn new() -> (r: HeaderMap)
        ensures
            r.wf(),
            forall|n: Seq<char>| r.lookup(n) is None,
            r.entries@.len() == 0,
    {
        HeaderMap { entries: Vec::new() }
    }

    /// The number of headers in the mapping.
    pub fn len(&self) -> (n: usize)
        ensures
            n == self.entries@.len(),
    {
        self.entries.len()
    }

    /// Looks a header up by name.
    pub fn get(&self, name: &str) -> (r: Option<&String>)
        ensures
            match r {
                Some(v) => self.lookup(name@) == Some(v@),
                None => self.lookup(name@) is None,
            },
    {
        let n = self.entries.len();
        proof {
            assert(self.entries@.skip(0) =~= self.entries@);
        }
        for i in 0..n
            invariant
                n == self.entries@.len(),
                lookup_in(self.entries@, name@) == lookup_in(
                    self.entries@.skip(i as int),
                    name@,
                ),
        {
            if str_eq(self.entries[i].0.as_str(), name) {
                proof {
                    assert(self.entries@.skip(i as int)[0] == self.entries@[i as int]);
                }
                return Some(&self.entries[i].1);
            }
            proof {
                assert(self.entries@.skip(i as int)[0] == self.entries@[i as int]);
                assert(self.entries@.skip(i as int).drop_first() =~= self.entries@.skip(i + 1));
            }
        }
        None
    }

    /// Inserts a header, overwriting any earlier value under the same name.
    pub fn insert(&mut self, name: String, value: String)
        requires
            old(self).wf(),
        ensures
            final(self).wf(),
            final(self).lookup(name@) == Some(value@),
            forall|n: Seq<char>| n != name@ ==> final(self).lookup(n) == old(self).lookup(n),
    {
        let count = self.entries.len();
        let mut i: usize = 0;
        loop
            invariant
                count == self.entries@.len(),
                0 <= i <= count,
                forall|m: int| 0 <= m < i ==> self.entries@[m].0@ != name@,
                old(self) == self,
            ensures
                count == self.entries@.len(),
                0 <= i <= count,
                forall|m: int| 0 <= m < i ==> self.entries@[m].0@ != name@,
                i < count ==> self.entries@[i as int].0@ == name@,
                old(self) == self,
            decreases count - i,
        {
            if i >= count {
                break;
            }
            if str_eq(self.entries[i].0.as_str(), name.as_str()) {
                break;
            }
            i = i + 1;
        }
        if i < count {
            let ghost es0 = self.entries@;
            self.entries.remove(i);
            self.entries.insert(i, (name, value));
            proof {
                let pair = ((name, value));
                assert(self.entries@ =~= es0.update(i as int, pair));
                assert(forall|m: int|
                    0 <= m < es0.len() ==> es0.update(i as int, pair)[m].0@ == es0[m].0@);
                assert(self.wf());
                assert forall|n: Seq<char>| true implies lookup_in(
                    es0.update(i as int, pair),
                    n,
                ) == if n == pair.0@ {
                    Some(pair.1@)
                } else {
                    lookup_in(es0, n)
                } by {
                    lemma_lookup_update(es0, i as int, pair, n);
                }
            }
        } else {
            let ghost es0 = self.entries@;
            proof {
                let pair = ((name, value));
                lemma_lookup_push_same(es0, pair);
                assert forall|n: Seq<char>| n != pair.0@ implies lookup_in(es0.push(pair), n)
                    == lookup_in(es0, n) by {
                    lemma_lookup_push_other(es0, pair, n);
                }
            }
            self.entries.push((name, value));
        }
    }
}

/// Last-writer-wins association: the value of the last entry named `name`.
pub open spec fn assoc_last(entries: Seq<(Seq<char>, Seq<char>)>, name: Seq<char>) -> Option<
    Seq<char>,
>
    decreases entries.len(),
{
    if entries.len() == 0 {
        None
    } else if entries.last().0 == name {
        Some(entries.last().1)
    } else {
        assoc_last(entries.drop_last(), name)
    }
}

pub proof fn lemma_assoc_last_push(
    es: Seq<(Seq<char>, Seq<char>)>,
    e: (Seq<char>, Seq<char>),
    n: Seq<char>,
)
    ensures
        assoc_last(es.push(e), n) == if e.0 == n {
            Some(e.1)
        } else {
            assoc_last(es, n)
        },
{
    assert(es.push(e).drop_last() =~= es);
    assert(es.push(e).last() == e);
}

pub proof fn lemma_assoc_last_concat(
    xs: Seq<(Seq<char>, Seq<char>)>,
    ys: Seq<(Seq<char>, Seq<char>)>,
    n: Seq<char>,
)
    ensures
        assoc_last(xs + ys, n) == match assoc_last(ys, n) {
            Some(v) => Some(v),
            None => assoc_last(xs, n),
        },
    decreases ys.len(),
{
    if ys.len() == 0 {
        assert(xs + ys =~= xs);
    } else {
        assert((xs + ys).last() == ys.last());
        assert((xs + ys).drop_last() =~= xs + ys.drop_last());
        lemma_assoc_last_concat(xs, ys.drop_last(), n);
    }
}

/// The lines of `s`, split on `'\n'`.
pub open spec fn lines_of(s: Seq<char>) -> Seq<Seq<char>>
    decreases s.len(),
    via lines_of_decreases
{
    match find_char_from(s, 0, '\n') {
        None => seq![s],
        Some(i) => seq![s.take(i)] + lines_of(s.skip(i + 1)),
    }
}

#[via_fn]
proof fn lines_of_decreases(s: Seq<char>) {
    match find_char_from(s, 0, '\n') {
        None => {},
        Some(i) => {
            lemma_find_char_bounds(s, 0, '\n', i);
        },
    }
}

/// Splits `s` into its lines.
pub fn split_lines(s: &str) -> (r: Vec<String>)
    ensures
        r@.len() == lines_of(s@).len(),
        forall|k: int| 0 <= k < r@.len() ==> r@[k]@ == lines_of(s@)[k],
{
    let mut out: Vec<String> = Vec::new();
    let mut rest = String::from_str(s);
    let ghost mut done: Seq<Seq<char>> = Seq::empty();
    proof {
        assert(done + lines_of(rest@) =~= lines_of(s@));
    }
    loop
        invariant
            lines_of(s@) == done + lines_of(rest@),
            out@.len() == done.len(),
            forall|k: int| 0 <= k < out@.len() ==> out@[k]@ == done[k],
        decreases rest@.len(),
    {
        let ghost rest0 = rest@;
        let ghost done0 = done;
        let rest_len = rest.as_str().unicode_len();
        match find_char(rest.as_str(), 0, '\n') {
            None => {
                out.push(rest);
                proof {
                    done = done0.push(rest0);
                    assert(done0 + lines_of(rest0) =~= done0.push(rest0));
                }
                return out;
            },
            Some(i) => {
                proof {
                    lemma_find_char_bounds(rest0, 0, '\n', i as int);
                }
                let line = String::from_str(rest.as_str().substring_char(0, i));
                let new_rest = String::from_str(rest.as_str().substring_char(i + 1, rest_len));
                out.push(line);
                rest = new_rest;
                proof {
                    done = done0.push(rest0.take(i as int));
                    assert(rest@ =~= rest0.skip(i as int + 1));
                    assert(lines_of(rest0) == seq![rest0.take(i as int)] + lines_of(
                        rest0.skip(i as int + 1),
                    ));
                    assert(done + lines_of(rest@) =~= done0 + lines_of(rest0));
                }
            },
        }
    }
}

/// One `Name: Value` line of the process-wide block: split at the first
/// colon, both sides trimmed. A line without a colon yields nothing.
pub open spec fn parse_line(line: Seq<char>) -> Option<(Seq<char>, Seq<char>)> {
    match find_char_from(line, 0, ':') {
        None => None,
        Some(j) => Some((trim_spec(line.take(j)), trim_spec(line.skip(j + 1)))),
    }
}

/// The entries contributed by the lines of the process-wide block, in order,
/// values substituted; lines without a colon contribute nothing.
pub open spec fn resolved_block_lines(ls: Seq<Seq<char>>, env: EnvVars) -> Seq<
    (Seq<char>, Seq<char>),
>
    decreases ls.len(),
{
    if ls.len() == 0 {
        Seq::empty()
    } else {
        resolved_block_lines(ls.drop_last(), env) + match parse_line(ls.last()) {
            None => Seq::empty(),
            Some(kv) => seq![(kv.0, subst(kv.1, env))],
        }
    }
}

/// The entries contributed by the per-profile header templates, in order,
/// values substituted.
pub open spec fn resolved_profile_headers(hs: Seq<(String, String)>, env: EnvVars) -> Seq<
    (Seq<char>, Seq<char>),
>
    decreases hs.len(),
{
    if hs.len() == 0 {
        Seq::empty()
    } else {
        resolved_profile_headers(hs.drop_last(), env) + seq![
            (hs.last().0@, subst(hs.last().1@, env)),
        ]
    }
}

/// A line without a colon contributes no entry to the block, whatever stands
/// around it.
pub proof fn lemma_line_without_colon_dropped(ls: Seq<Seq<char>>, line: Seq<char>, env: EnvVars)
    requires
        find_char_from(line, 0, ':') is None,
    ensures
        resolved_block_lines(ls.push(line), env) == resolved_block_lines(ls, env),
{
    assert(ls.push(line).drop_last() =~= ls);
    assert(ls.push(line).last() == line);
    assert(resolved_block_lines(ls, env) + Seq::<(Seq<char>, Seq<char>)>::empty()
        =~= resolved_block_lines(ls, env));
}

} // verus!
