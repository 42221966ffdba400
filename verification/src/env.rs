//! The variable environment: a mapping from variable name to resolved
//! numeric value (a binary64 bit pattern). Assignment always overwrites;
//! entries are removed only by clearing the whole environment. Its view is a
//! `Map` from name to value; internally the entries are an association list
//! whose names are pairwise distinct.
use vstd::prelude::*;

use crate::token::chars_eq;
use crate::token::copy_chars;

verus! {

/// One binding of a variable name to a value.
#[derive(Debug)]
pub struct Binding {
    pub name: Vec<char>,
    pub value: u64,
}

/// The map that a sequence of bindings denotes; a later binding for the same
/// name would win, though the environment keeps names distinct.
pub open spec fn entries_map(s: Seq<Binding>) -> Map<Seq<char>, u64>
    decreases s.len(),
{
    if s.len() == 0 {
        Map::empty()
    } else {
        entries_map(s.drop_last()).insert(s.last().name@, s.last().value)
    }
}

/// A name occurs in the denoted map exactly when some binding carries it.
proof fn lemma_entries_contains(s: Seq<Binding>, n: Seq<char>)
    ensures
        entries_map(s).contains_key(n) <==> exists|i: int| 0 <= i < s.len() && s[i].name@ == n,
    decreases s.len(),
{
    if s.len() > 0 {
        lemma_entries_contains(s.drop_last(), n);
        if s.last().name@ == n {
            assert(s[s.len() - 1].name@ == n);
        } else {
            if entries_map(s).contains_key(n) {
                let i = choose|i: int| 0 <= i < s.drop_last().len() && s.drop_last()[i].name@
                    == n;
                assert(s[i].name@ == n);
            }
            if exists|i: int| 0 <= i < s.len() && s[i].name@ == n {
                let i = choose|i: int| 0 <= i < s.len() && s[i].name@ == n;
                assert(i < s.len() - 1);
                assert(s.drop_last()[i].name@ == n);
            }
        }
    }
}

/// The value of a name is the value of its last binding.
proof fn lemma_entries_value(s: Seq<Binding>, n: Seq<char>, i: int)
    requires
        0 <= i < s.len(),
        s[i].name@ == n,
        forall|j: int| i < j < s.len() ==> s[j].name@ != n,
    ensures
        entries_map(s).contains_key(n),
        entries_map(s)[n] == s[i].value,
    decreases s.len(),
{
    if i == s.len() - 1 {
    } else {
        assert(s.drop_last()[i].name@ == n);
        lemma_entries_value(s.drop_last(), n, i);
        assert(s.last().name@ != n);
    }
}

/// Overwriting the one binding of a name denotes an insert into the map.
proof fn lemma_entries_update(s: Seq<Binding>, i: int, b: Binding)
    requires
        0 <= i < s.len(),
        s[i].name@ == b.name@,
        forall|j: int| 0 <= j < s.len() && j != i ==> s[j].name@ != b.name@,
    ensures
        entries_map(s.update(i, b)) == entries_map(s).insert(b.name@, b.value),
    decreases s.len(),
{
    let n = b.name@;
    if i == s.len() - 1 {
        assert(s.update(i, b).drop_last() =~= s.drop_last());
        assert(s.update(i, b).last() == b);
        assert(entries_map(s.drop_last()).insert(n, s[i].value).insert(n, b.value)
            =~= entries_map(s.drop_last()).insert(n, b.value));
    } else {
        assert(s.update(i, b).drop_last() =~= s.drop_last().update(i, b));
        assert(s.update(i, b).last() == s.last());
        assert(forall|j: int| 0 <= j < s.drop_last().len() && j != i ==> s.drop_last()[j]
            == s[j]);
        assert(s.drop_last()[i] == s[i]);
        lemma_entries_update(s.drop_last(), i, b);
        let m = entries_map(s.drop_last());
        assert(s.last().name@ != n);
        assert(m.insert(n, b.value).insert(s.last().name@, s.last().value) =~= m.insert(
            s.last().name@,
            s.last().value,
        ).insert(n, b.value));
    }
}

/// The variable environment.
pub struct Env {
    entries: Vec<Binding>,
}

impl View for Env {
    type V = Map<Seq<char>, u64>;

    closed spec fn view(&self) -> Map<Seq<char>, u64> {
        entries_map(self.entries@)
    }
}

impl Env {
    #[verifier::type_invariant]
    closed spec fn inv(&self) -> bool {
        forall|i: int, j: int|
            0 <= i < j < self.entries@.len() ==> self.entries@[i].name@ != self.entries@[j].name@
    }

    /// An empty environment.
    pub fn new() -> (e: Env)
        ensures
            e@ == Map::<Seq<char>, u64>::empty(),
    {
        Env { entries: Vec::new() }
    }

    /// Whether a name is assigned.
    pub fn contains(&self, name: &Vec<char>) -> (r: bool)
        ensures
            r == self@.contains_key(name@),
    {
        proof {
            use_type_invariant(self);
            lemma_entries_contains(self.entries@, name@);
        }
        let mut i: usize = 0;
        while i < self.entries.len()
            invariant
                i <= self.entries@.len(),
                forall|j: int| 0 <= j < i ==> self.entries@[j].name@ != name@,
            decreases self.entries@.len() - i,
        {
            if chars_eq(&self.entries[i].name, name) {
                proof {
                    assert(self.entries@[i as int].name@ == name@);
                    lemma_entries_contains(self.entries@, name@);
                }
                return true;
            }
            i = i + 1;
        }
        false
    }

    /// The value of a name, if it is assigned.
    pub fn get(&self, name: &Vec<char>) -> (r: Option<u64>)
        ensures
            r == if self@.contains_key(name@) {
                Some(self@[name@])
            } else {
                None::<u64>
            },
    {
        proof {
            use_type_invariant(self);
            lemma_entries_contains(self.entries@, name@);
        }
        let ghost inv_names = self.entries@;
        let mut i: usize = 0;
        while i < self.entries.len()
            invariant
                i <= self.entries@.len(),
                self.entries@ == inv_names,
                forall|k: int, j: int|
                    0 <= k < j < self.entries@.len() ==> self.entries@[k].name@
                        != self.entries@[j].name@,
                forall|j: int| 0 <= j < i ==> self.entries@[j].name@ != name@,
            decreases self.entries@.len() - i,
        {
            if chars_eq(&self.entries[i].name, name) {
                proof {
                    lemma_entries_value(self.entries@, name@, i as int);
                }
                return Some(self.entries[i].value);
            }
            i = i + 1;
        }
        None
    }

    /// Assigns a value to a name, overwriting any earlier assignment.
    pub fn set(&mut self, name: &Vec<char>, value: u64)
        ensures
            final(self)@ == old(self)@.insert(name@, value),
    {
        proof {
            use_type_invariant(&*self);
        }
        let mut es: Vec<Binding> = Vec::new();
        core::mem::swap(&mut self.entries, &mut es);
        let ghost orig = es@;
        let mut i: usize = 0;
        let mut found = false;
        while i < es.len() && !found
            invariant
                i <= es@.len(),
                forall|k: int, j: int|
                    0 <= k < j < es@.len() ==> es@[k].name@ != es@[j].name@,
                forall|j: int| 0 <= j < i ==> es@[j].name@ != name@,
                !found ==> es@ == orig,
                found ==> entries_map(es@) == entries_map(orig).insert(name@, value),
            decreases es@.len() - i + if found {
                0int
            } else {
                1int
            },
        {
            if chars_eq(&es[i].name, name) {
                let b = Binding { name: copy_chars(name), value };
                proof {
                    lemma_entries_update(es@, i as int, b);
                }
                es[i] = b;
                found = true;
            } else {
                i = i + 1;
            }
        }
        if !found {
            let b = Binding { name: copy_chars(name), value };
            let ghost before = es@;
            es.push(b);
            proof {
                assert(es@.drop_last() =~= before);
                assert(entries_map(es@) == entries_map(before).insert(name@, value));
            }
        }
        core::mem::swap(&mut self.entries, &mut es);
        proof {
            assert(self@ == entries_map(orig).insert(name@, value));
        }
    }

    /// Removes every assignment.
    pub fn clear(&mut self)
        ensures
            final(self)@ == Map::<Seq<char>, u64>::empty(),
    {
        let mut es: Vec<Binding> = Vec::new();
        core::mem::swap(&mut self.entries, &mut es);
    }

    /// The bindings, for rendering: each is present in the environment, and
    /// every assigned name appears among them.
    pub fn bindings(&self) -> (r: &Vec<Binding>)
        ensures
            forall|i: int|
                0 <= i < r@.len() ==> self@.contains_key(#[trigger] r@[i].name@) && self@[r@[i].name@]
                    == r@[i].value,
            forall|n: Seq<char>|
                self@.contains_key(n) ==> exists|i: int| 0 <= i < r@.len() && r@[i].name@ == n,
    {
        proof {
            use_type_invariant(self);
            assert forall|i: int| 0 <= i < self.entries@.len() implies self@.contains_key(
                #[trigger] self.entries@[i].name@,
            ) && self@[self.entries@[i].name@] == self.entries@[i].value by {
                lemma_entries_value(self.entries@, self.entries@[i].name@, i);
            }
            assert forall|n: Seq<char>| self@.contains_key(n) implies exists|i: int|
                0 <= i < self.entries@.len() && self.entries@[i].name@ == n by {
                lemma_entries_contains(self.entries@, n);
            }
        }
        &self.entries
    }
}

} // verus!
