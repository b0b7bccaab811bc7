//! The global variable table: a name-to-value mapping with the language's
//! semantics.  Defining a global creates or overwrites it; assigning one
//! requires it to exist already; reading one that does not exist is the
//! caller's runtime error.
//!
//! The table is an append-only association list where the latest entry for
//! a name wins; `spec_lookup` is its meaning.

use vstd::prelude::*;

use crate::scanner::copy_range;
use crate::value::Value;
use crate::value::ValueV;

verus! {

/// The value the table holds for `key`: the last entry with that name, or
/// `None` if there is none.
pub open spec fn spec_lookup(entries: Seq<(Vec<u8>, Value)>, key: Seq<u8>) -> Option<ValueV>
    decreases entries.len(),
{
    if entries.len() == 0 {
        None
    } else if entries.last().0@ == key {
        Some(entries.last().1@)
    } else {
        spec_lookup(entries.drop_last(), key)
    }
}

/// The global environment.
pub struct Globals {
    pub entries: Vec<(Vec<u8>, Value)>,
}

impl Globals {
    /// An empty environment.
    pub fn new() -> (g: Globals)
        ensures
            g.entries@.len() == 0,
    {
        Globals { entries: Vec::new() }
    }

    /// The value bound to `key`, if any, as an owned copy.
    pub fn lookup(&self, key: &Vec<u8>) -> (r: Option<Value>)
        ensures
            match r {
                Some(v) => spec_lookup(self.entries@, key@) == Some(v@),
                None => spec_lookup(self.entries@, key@) is None,
            },
    {
        let n = self.entries.len();
        let mut i = n;
        proof {
            assert(self.entries@.take(n as int) =~= self.entries@);
        }
        while i > 0
            invariant
                i <= n,
                n == self.entries@.len(),
                spec_lookup(self.entries@, key@) == spec_lookup(
                    self.entries@.take(i as int),
                    key@,
                ),
            decreases i,
        {
            let hit = crate::compiler::bytes_eq(&self.entries[i - 1].0, key);
            proof {
                assert(self.entries@.take(i as int).last() == self.entries@[i - 1]);
                assert(self.entries@.take(i as int).drop_last() =~= self.entries@.take(i - 1));
            }
            if hit {
                let v = self.entries[i - 1].1.duplicate();
                return Some(v);
            }
            i = i - 1;
        }
        proof {
            assert(self.entries@.take(0int).len() == 0);
        }
        None
    }

    /// Bind `key` to `value`, creating the binding or overwriting an
    /// existing one.
    pub fn define(&mut self, key: Vec<u8>, value: Value)
        ensures
            forall|k: Seq<u8>|
                #[trigger] spec_lookup(final(self).entries@, k) == if k == key@ {
                    Some(value@)
                } else {
                    spec_lookup(old(self).entries@, k)
                },
    {
        let ghost pre_entries = self.entries@;
        let ghost v = value@;
        let ghost kk = key@;
        self.entries.push((key, value));
        proof {
            assert forall|k: Seq<u8>|
                #[trigger] spec_lookup(self.entries@, k) == if k == kk {
                    Some(v)
                } else {
                    spec_lookup(pre_entries, k)
                } by {
                assert(self.entries@.last().0@ == kk);
                assert(self.entries@.drop_last() =~= pre_entries);
            }
        }
    }

    /// Assign `value` to the existing binding of `key`; returns false, and
    /// changes nothing, iff no such binding exists.
    pub fn assign(&mut self, key: &Vec<u8>, value: Value) -> (r: bool)
        ensures
            r == (spec_lookup(old(self).entries@, key@) is Some),
            r ==> forall|k: Seq<u8>|
                #[trigger] spec_lookup(final(self).entries@, k) == if k == key@ {
                    Some(value@)
                } else {
                    spec_lookup(old(self).entries@, k)
                },
            !r ==> final(self).entries@ == old(self).entries@,
    {
        let existing = self.lookup(key);
        match existing {
            Some(_) => {
                let n = key.len();
                let key_copy = copy_range(key, 0, n);
                proof {
                    assert(key_copy@ =~= key@);
                }
                self.define(key_copy, value);
                true
            },
            None => false,
        }
    }
}

} // verus!
