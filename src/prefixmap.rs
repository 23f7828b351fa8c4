//! Prefix declarations: aliases that stand for IRI namespaces.

use vstd::prelude::*;
use vstd::string::StringExecFns;

verus! {

pub open spec fn entries_view(s: Seq<(String, String)>) -> Seq<(Seq<char>, Seq<char>)> {
    s.map_values(|e: (String, String)| (e.0@, e.1@))
}

pub open spec fn has_alias(m: Seq<(Seq<char>, Seq<char>)>, alias: Seq<char>) -> bool {
    exists|i: int| 0 <= i < m.len() && #[trigger] m[i].0 == alias
}

/// The namespace that `alias` stands for, if it is declared.
pub open spec fn iri_of(m: Seq<(Seq<char>, Seq<char>)>, alias: Seq<char>) -> Option<Seq<char>> {
    if has_alias(m, alias) {
        Some(m[choose|i: int| 0 <= i < m.len() && #[trigger] m[i].0 == alias].1)
    } else {
        None
    }
}

/// Why a prefixed name could not be resolved.
#[derive(Debug, Clone, PartialEq)]
pub enum PrefixMapError {
    /// The alias is not declared.
    PrefixNotFound(String),
}

/// A set of prefix declarations, each alias declared once.
#[derive(Debug)]
pub struct PrefixMap {
    entries: Vec<(String, String)>,
}

impl View for PrefixMap {
    type V = Seq<(Seq<char>, Seq<char>)>;

    closed spec fn view(&self) -> Seq<(Seq<char>, Seq<char>)> {
        entries_view(self.entries@)
    }
}

proof fn lemma_unique_index(m: Seq<(Seq<char>, Seq<char>)>, alias: Seq<char>, k: int)
    requires
        0 <= k < m.len(),
        m[k].0 == alias,
        forall|i: int, j: int| 0 <= i < j < m.len() ==> m[i].0 != m[j].0,
    ensures
        iri_of(m, alias) == Some(m[k].1),
{
    let i = choose|i: int| 0 <= i < m.len() && #[trigger] m[i].0 == alias;
    if i < k {
        assert(m[i].0 != m[k].0);
    } else if k < i {
        assert(m[k].0 != m[i].0);
    }
}

impl PrefixMap {
    pub open spec fn wf(&self) -> bool {
        forall|i: int, j: int| 0 <= i < j < self@.len() ==> self@[i].0 != self@[j].0
    }

    /// No declarations.
    pub fn new() -> (r: PrefixMap)
        ensures
            r.wf(),
            forall|a: Seq<char>| iri_of(r@, a) is None,
    {
        let r = PrefixMap { entries: Vec::new() };
        assert(r@ =~= Seq::<(Seq<char>, Seq<char>)>::empty());
        r
    }

    fn index_of(&self, alias: &String) -> (r: Option<usize>)
        ensures
            match r {
                Some(k) => k < self@.len() && self@[k as int].0 == alias@,
                None => !has_alias(self@, alias@),
            },
    {
        let mut i: usize = 0;
        while i < self.entries.len()
            invariant
                0 <= i <= self.entries@.len(),
                forall|k: int| 0 <= k < i ==> self@[k].0 != alias@,
            decreases self.entries.len() - i,
        {
            assert(self@[i as int] == (self.entries@[i as int].0@, self.entries@[i as int].1@));
            if self.entries[i].0.eq(alias) {
                return Some(i);
            }
            i += 1;
        }
        None
    }

    /// The namespace that `alias` stands for.
    pub fn find(&self, alias: &str) -> (r: Option<String>)
        requires
            self.wf(),
        ensures
            match r {
                Some(iri) => iri_of(self@, alias@) == Some(iri@),
                None => iri_of(self@, alias@) is None,
            },
    {
        let a = alias.to_string();
        match self.index_of(&a) {
            Some(k) => {
                proof {
                    lemma_unique_index(self@, alias@, k as int);
                }
                assert(self@[k as int] == (self.entries@[k as int].0@, self.entries@[k as int].1@));
                Some(self.entries[k].1.clone())
            },
            None => None,
        }
    }

    /// Declares `alias` for `iri`, replacing an earlier declaration of it.
    pub fn insert(&mut self, alias: &str, iri: &str)
        requires
            old(self).wf(),
        ensures
            final(self).wf(),
            iri_of(final(self)@, alias@) == Some(iri@),
            forall|a: Seq<char>| a != alias@ ==> iri_of(final(self)@, a) == iri_of(old(self)@, a),
    {
        let a = alias.to_string();
        let ghost before = self@;
        match self.index_of(&a) {
            Some(k) => {
                self.entries.set(k, (a, iri.to_string()));
                proof {
                    assert(self@ =~= before.update(k as int, (alias@, iri@)));
                    lemma_unique_index(self@, alias@, k as int);
                    assert forall|x: Seq<char>| x != alias@ implies iri_of(self@, x) == iri_of(before, x) by {
                        if has_alias(before, x) {
                            let q = choose|q: int| 0 <= q < before.len() && #[trigger] before[q].0 == x;
                            lemma_unique_index(before, x, q);
                            lemma_unique_index(self@, x, q);
                        }
                        if has_alias(self@, x) {
                            let q = choose|q: int| 0 <= q < self@.len() && #[trigger] self@[q].0 == x;
                            assert(before[q].0 == x);
                        }
                    }
                }
            },
            None => {
                self.entries.push((a, iri.to_string()));
                proof {
                    assert(self@ =~= before.push((alias@, iri@)));
                    lemma_unique_index(self@, alias@, before.len() as int);
                    assert forall|x: Seq<char>| x != alias@ implies iri_of(self@, x) == iri_of(before, x) by {
                        if has_alias(before, x) {
                            let q = choose|q: int| 0 <= q < before.len() && #[trigger] before[q].0 == x;
                            lemma_unique_index(before, x, q);
                            lemma_unique_index(self@, x, q);
                        }
                        if has_alias(self@, x) {
                            let q = choose|q: int| 0 <= q < self@.len() && #[trigger] self@[q].0 == x;
                            assert(before[q].0 == x);
                        }
                    }
                }
            },
        }
    }

    /// The IRI that `prefix:local` stands for: the namespace of the alias
    /// followed by the local name.
    pub fn resolve_prefix_local(&self, prefix: &str, local: &str) -> (r: Result<String, PrefixMapError>)
        requires
            self.wf(),
        ensures
            match iri_of(self@, prefix@) {
                Some(ns) => r matches Ok(iri) && iri@ == ns + local@,
                None => r matches Err(PrefixMapError::PrefixNotFound(p)) && p@ == prefix@,
            },
    {
        match self.find(prefix) {
            Some(ns) => {
                let mut iri = ns;
                iri.append(local);
                Ok(iri)
            },
            None => Err(PrefixMapError::PrefixNotFound(prefix.to_string())),
        }
    }
}

} // verus!
