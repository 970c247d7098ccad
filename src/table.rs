//! Name tables: each name with a sequence of tokens.
use vstd::prelude::*;
use crate::semantics::{find, find_from, get, lemma_find_from, put, Tbl};
use crate::token::{dup_tokens, tv, Token};

verus! {

/// A table of named token sequences, in the order of first definition.
pub struct Table {
    entries: Vec<(String, Vec<Token>)>,
}

impl View for Table {
    type V = Tbl;

    closed spec fn view(&self) -> Tbl {
        Seq::new(self.entries@.len(), |i: int| (self.entries@[i].0@, tv(self.entries@[i].1@)))
    }
}

impl Table {
    /// An empty table.
    pub fn new() -> (r: Table)
        ensures
            r@ == Seq::<(Seq<char>, Seq<crate::token::Tok>)>::empty(),
    {
        let r = Table { entries: Vec::new() };
        proof {
            assert(r@ =~= Seq::<(Seq<char>, Seq<crate::token::Tok>)>::empty());
        }
        r
    }

    /// The index of the entry for `name`.
    pub fn find(&self, name: &String) -> (r: Option<usize>)
        ensures
            match r {
                Some(i) => find(self@, name@) == Some(i as int) && i < self@.len(),
                None => find(self@, name@) is None,
            },
    {
        proof {
            lemma_find_from(self@, name@, 0);
        }
        let mut i: usize = 0;
        while i < self.entries.len()
            invariant
                i <= self.entries@.len(),
                self@.len() == self.entries@.len(),
                find(self@, name@) == find_from(self@, name@, i as int),
            decreases self.entries.len() - i,
        {
            if self.entries[i].0 == *name {
                return Some(i);
            }
            i = i + 1;
        }
        None
    }

    /// Whether `name` has an entry.
    pub fn contains(&self, name: &String) -> (r: bool)
        ensures
            r == (get(self@, name@) is Some),
    {
        self.find(name).is_some()
    }

    /// A copy of the tokens stored under `name`.
    pub fn get(&self, name: &String) -> (r: Option<Vec<Token>>)
        ensures
            match r {
                Some(v) => get(self@, name@) == Some(tv(v@)),
                None => get(self@, name@) is None,
            },
    {
        match self.find(name) {
            Some(i) => Some(dup_tokens(&self.entries[i].1)),
            None => None,
        }
    }

    /// Binds `name` to `v`, replacing an earlier binding.
    pub fn put(&mut self, name: String, v: Vec<Token>)
        ensures
            final(self)@ == put(old(self)@, name@, tv(v@)),
    {
        match self.find(&name) {
            Some(i) => {
                let ghost n = name@;
                self.entries.set(i, (name, v));
                proof {
                    assert(final(self)@ =~= old(self)@.update(i as int, (n, tv(v@))));
                }
            },
            None => {
                let ghost n = name@;
                self.entries.push((name, v));
                proof {
                    assert(final(self)@ =~= old(self)@.push((n, tv(v@))));
                }
            },
        }
    }
}

} // verus!
