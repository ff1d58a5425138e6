//! Expansion state that the user chose for tree directories, keyed by path.

use vstd::prelude::*;
use crate::text;
use crate::text::chars_of;

verus! {

spec fn unique_keys(e: Seq<(String, bool)>) -> bool {
    forall|a: int, b: int| 0 <= a < b < e.len() ==> e[a].0@ != e[b].0@
}

spec fn has_key(e: Seq<(String, bool)>, k: Seq<char>) -> bool {
    exists|i: int| 0 <= i < e.len() && #[trigger] e[i].0@ == k
}

spec fn index_of(e: Seq<(String, bool)>, k: Seq<char>) -> int {
    choose|i: int| 0 <= i < e.len() && #[trigger] e[i].0@ == k
}

proof fn lemma_index_of(e: Seq<(String, bool)>, j: int)
    requires
        unique_keys(e),
        0 <= j < e.len(),
    ensures
        has_key(e, e[j].0@),
        index_of(e, e[j].0@) == j,
{
    let k = e[j].0@;
    assert(has_key(e, k));
    let i = index_of(e, k);
    if i < j {
        assert(e[i].0@ != e[j].0@);
    } else if i > j {
        assert(e[j].0@ != e[i].0@);
    }
}

/// Expanded or collapsed, per directory path; paths without a choice follow
/// the default of the tree that reads them.
pub struct ExpansionOverrides {
    entries: Vec<(String, bool)>,
}

impl ExpansionOverrides {
    #[verifier::type_invariant]
    spec fn keys_unique(self) -> bool {
        unique_keys(self.entries@)
    }
}

impl View for ExpansionOverrides {
    type V = Map<Seq<char>, bool>;

    closed spec fn view(&self) -> Map<Seq<char>, bool> {
        Map::new(
            |k: Seq<char>| has_key(self.entries@, k),
            |k: Seq<char>| self.entries@[index_of(self.entries@, k)].1,
        )
    }
}

impl ExpansionOverrides {
    /// No choices yet.
    pub fn new() -> (r: Self)
        ensures
            r@ == Map::<Seq<char>, bool>::empty(),
    {
        let r = ExpansionOverrides { entries: Vec::new() };
        assert(r@ =~= Map::<Seq<char>, bool>::empty());
        r
    }

    fn find(&self, key: &[char]) -> (r: Option<usize>)
        ensures
            r matches Some(i) ==> i < self.entries@.len() && self.entries@[i as int].0@ == key@,
            r is None ==> !has_key(self.entries@, key@),
    {
        for i in 0..self.entries.len()
            invariant
                forall|q: int| 0 <= q < i ==> self.entries@[q].0@ != key@,
        {
            let k = chars_of(self.entries[i].0.as_str());
            if text::chars_eq(&k, key) {
                return Some(i);
            }
        }
        None
    }

    /// The choice for `key`, if one was made.
    pub fn get(&self, key: &str) -> (r: Option<bool>)
        ensures
            r == (if self@.contains_key(key@) {
                Some(self@[key@])
            } else {
                None
            }),
    {
        proof {
            use_type_invariant(self);
        }
        let k = chars_of(key);
        match self.find(&k) {
            Some(i) => {
                proof {
                    lemma_index_of(self.entries@, i as int);
                }
                Some(self.entries[i].1)
            },
            None => None,
        }
    }

    /// Records the choice for `key`, replacing an earlier one.
    pub fn insert(&mut self, key: &str, expanded: bool)
        ensures
            final(self)@ == old(self)@.insert(key@, expanded),
    {
        proof {
            use_type_invariant(&*self);
        }
        let k = chars_of(key);
        let ghost old_e = self.entries@;
        let ghost at: int;
        let found = self.find(&k);
        let mut entries: Vec<(String, bool)> = Vec::new();
        std::mem::swap(&mut entries, &mut self.entries);
        match found {
            Some(i) => {
                let name = entries[i].0.clone();
                entries.set(i, (name, expanded));
                proof {
                    at = i as int;
                }
            },
            None => {
                entries.push((text::to_string(key), expanded));
                proof {
                    at = old_e.len() as int;
                }
            },
        }
        proof {
            let e = entries@;
            assert(e[at].0@ == key@ && e[at].1 == expanded);
            assert(forall|q: int| 0 <= q < old_e.len() && q != at ==> #[trigger] e[q] == old_e[q]);
            assert forall|a: int, b: int| 0 <= a < b < e.len() implies e[a].0@ != e[b].0@ by {
                if a != at && b != at {
                    assert(e[a] == old_e[a] && e[b] == old_e[b]);
                } else if a == at {
                    assert(e[b] == old_e[b]);
                    if found is Some {
                        assert(old_e[at].0@ == key@);
                    }
                } else {
                    assert(e[a] == old_e[a]);
                    if found is Some {
                        assert(old_e[at].0@ == key@);
                    }
                }
            }
        }
        self.entries = entries;
        proof {
            let e = self.entries@;
            assert(e[at].0@ == key@ && e[at].1 == expanded);
            assert(forall|q: int| 0 <= q < old_e.len() && q != at ==> #[trigger] e[q] == old_e[q]);
            lemma_index_of(e, at);
            assert forall|x: Seq<char>| #[trigger] has_key(e, x) == (x == key@ || has_key(old_e, x)) by {
                if has_key(e, x) && x != key@ {
                    let j = choose|j: int| 0 <= j < e.len() && #[trigger] e[j].0@ == x;
                    assert(old_e[j].0@ == x);
                }
                if has_key(old_e, x) {
                    let j = choose|j: int| 0 <= j < old_e.len() && #[trigger] old_e[j].0@ == x;
                    if j != at {
                        assert(e[j].0@ == x);
                    }
                }
            }
            assert forall|x: Seq<char>| has_key(old_e, x) && x != key@ implies #[trigger] e[index_of(e, x)].1
                == old_e[index_of(old_e, x)].1 by {
                let j = index_of(old_e, x);
                lemma_index_of(old_e, j);
                assert(j != at);
                assert(e[j] == old_e[j]);
                lemma_index_of(e, j);
            }
            assert(self@ =~= old(self)@.insert(key@, expanded));
        }
    }
}

/// Recording a choice for a directory decides its expansion from then on,
/// whatever its depth; every other directory keeps the expansion it had.
pub proof fn lemma_recorded_choice_decides(
    ov: Map<Seq<char>, bool>,
    key: Seq<char>,
    expanded: bool,
    other: Seq<char>,
    depth: u16,
)
    ensures
        crate::compare_tree::expansion_of(ov.insert(key, expanded), key, depth) == expanded,
        other != key ==> crate::compare_tree::expansion_of(ov.insert(key, expanded), other, depth)
            == crate::compare_tree::expansion_of(ov, other, depth),
{
}

} // verus!
