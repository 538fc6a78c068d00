//! The hint map and the dotted property path.
//!
//! Struct values nested inside containers carry no type tag on the wire, so
//! the caller supplies one out of band: a read-only map from the dotted
//! property path (property name, then the type tags descended through) to a
//! struct type name.

use vstd::prelude::*;
use vstd::string::StringExecFns;

use crate::string_codec::strings_equal;

verus! {

/// What looking a key up in a list of entries yields: the value of the
/// first entry whose key matches.
pub open spec fn spec_lookup(entries: Seq<(String, String)>, key: Seq<char>) -> Option<Seq<char>>
    decreases entries.len(),
{
    if entries.len() == 0 {
        None
    } else if entries[0].0@ == key {
        Some(entries[0].1@)
    } else {
        spec_lookup(entries.subrange(1, entries.len() as int), key)
    }
}

/// A caller-supplied mapping from dotted property path to struct type name,
/// read-only for the duration of a decode.
pub struct HintMap {
    pub entries: Vec<(String, String)>,
}

impl HintMap {
    /// An empty hint map.
    pub fn new() -> (h: HintMap)
        ensures
            h.entries@.len() == 0,
    {
        HintMap { entries: Vec::new() }
    }

    /// Adds a hint; a later entry never shadows an earlier one for the
    /// same path.
    pub fn insert(&mut self, path: String, struct_name: String)
        ensures
            final(self).entries@ == old(self).entries@.push((path, struct_name)),
    {
        self.entries.push((path, struct_name));
    }

    /// Looks the given path up.
    pub fn get(&self, key: &str) -> (r: Option<&String>)
        ensures
            match r {
                Some(v) => spec_lookup(self.entries@, key@) == Some(v@),
                None => spec_lookup(self.entries@, key@) is None,
            },
    {
        let n = self.entries.len();
        proof {
            assert(self.entries@.subrange(0, n as int) =~= self.entries@);
        }
        let mut i: usize = 0;
        while i < n
            invariant
                i <= n,
                n == self.entries@.len(),
                spec_lookup(self.entries@, key@) == spec_lookup(
                    self.entries@.subrange(i as int, n as int),
                    key@,
                ),
            decreases n - i,
        {
            let ghost pre = self.entries@.subrange(i as int, n as int);
            if strings_equal(self.entries[i].0.as_str(), key) {
                return Some(&self.entries[i].1);
            }
            i = i + 1;
            proof {
                assert(pre[0] == self.entries@[i - 1]);
                assert(pre.subrange(1, pre.len() as int) =~= self.entries@.subrange(
                    i as int,
                    n as int,
                ));
            }
        }
        proof {
            assert(self.entries@.subrange(n as int, n as int) =~= Seq::<(String, String)>::empty());
        }
        None
    }
}

/// The dotted path a stack of segments denotes.
pub open spec fn spec_join_path(parts: Seq<Seq<char>>) -> Seq<char>
    decreases parts.len(),
{
    if parts.len() == 0 {
        Seq::empty()
    } else if parts.len() == 1 {
        parts[0]
    } else {
        parts[0] + "."@ + spec_join_path(parts.subrange(1, parts.len() as int))
    }
}

/// Appending a segment appends a dot and the segment (or is the segment,
/// for an empty stack).
pub proof fn lemma_join_path_snoc(parts: Seq<Seq<char>>, x: Seq<char>)
    ensures
        spec_join_path(parts.push(x)) == if parts.len() == 0 {
            x
        } else {
            spec_join_path(parts) + "."@ + x
        },
    decreases parts.len(),
{
    if parts.len() == 0 {
        assert(parts.push(x)[0] == x);
    } else if parts.len() == 1 {
        assert(parts.push(x)[0] == parts[0]);
        assert(parts.push(x).subrange(1, 2) =~= Seq::<Seq<char>>::empty().push(x));
        lemma_join_path_snoc(Seq::<Seq<char>>::empty(), x);
        assert(parts.push(x).subrange(1, 2)[0] == x);
        assert(spec_join_path(parts.push(x).subrange(1, 2)) == x);
    } else {
        let rest = parts.subrange(1, parts.len() as int);
        assert(parts.push(x)[0] == parts[0]);
        assert(parts.push(x).subrange(1, parts.len() as int + 1) =~= rest.push(x));
        lemma_join_path_snoc(rest, x);
        assert(spec_join_path(parts.push(x)) == parts[0] + "."@ + (spec_join_path(rest) + "."@
            + x));
        assert(spec_join_path(parts.push(x)) =~= spec_join_path(parts) + "."@ + x);
    }
}

/// Builds the dotted path string for the given stack of segments.
pub fn join_path(stack: &Vec<String>) -> (r: String)
    ensures
        r@ == spec_join_path(stack.deep_view()),
{
    let n = stack.len();
    proof {
        assert(stack.deep_view().len() == n);
        assert(stack.deep_view().subrange(0, 0) =~= Seq::<Seq<char>>::empty());
    }
    let mut r = String::new();
    let mut i: usize = 0;
    while i < n
        invariant
            i <= n,
            n == stack@.len(),
            n == stack.deep_view().len(),
            forall|k: int| 0 <= k < n ==> stack.deep_view()[k] == stack@[k]@,
            r@ == spec_join_path(stack.deep_view().subrange(0, i as int)),
        decreases n - i,
    {
        proof {
            lemma_join_path_snoc(stack.deep_view().subrange(0, i as int), stack.deep_view()[i as int]);
            assert(stack.deep_view().subrange(0, i as int).push(stack.deep_view()[i as int])
                =~= stack.deep_view().subrange(0, i as int + 1));
        }
        if i > 0 {
            r.append(".");
        }
        r.append(stack[i].as_str());
        i = i + 1;
    }
    proof {
        assert(stack.deep_view().subrange(0, n as int) =~= stack.deep_view());
    }
    r
}

} // verus!
