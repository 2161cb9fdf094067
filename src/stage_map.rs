use vstd::prelude::*;

use crate::assoc::{entries_map, lemma_entries_map_contains, lemma_entries_map_value};
use crate::parser::{same_block, StageBlock, StageModel};
use crate::text::views;

verus! {

/// The stages of a script, keyed by name.
#[derive(Debug)]
pub struct StageMap {
    entries: Vec<(String, StageBlock)>,
}

impl View for StageMap {
    type V = Map<Seq<char>, StageModel>;

    closed spec fn view(&self) -> Map<Seq<char>, StageModel> {
        entries_map(self.entries@)
    }
}

impl StageMap {
    /// An empty map.
    pub fn new() -> (r: Self)
        ensures
            r@ == Map::<Seq<char>, StageModel>::empty(),
    {
        StageMap { entries: Vec::new() }
    }

    /// Looks up a stage by name.
    pub fn get(&self, name: &str) -> (r: Option<&StageBlock>)
        ensures
            r is Some <==> self@.contains_key(name@),
            r is Some ==> r->0@ == self@[name@],
    {
        let key = String::from_str(name);
        let mut i: usize = self.entries.len();
        while i > 0
            invariant
                key@ == name@,
                i <= self.entries@.len(),
                forall|j: int| i <= j < self.entries@.len() ==> #[trigger] self.entries@[j].0@ != name@,
            decreases i,
        {
            i = i - 1;
            if self.entries[i].0 == key {
                proof { lemma_entries_map_value(self.entries@, name@, i as int); }
                return Some(&self.entries[i].1);
            }
        }
        proof { lemma_entries_map_contains(self.entries@, name@); }
        None
    }

    /// The names of the stages, each once, in no particular order.
    pub fn keys(&self) -> (r: Vec<String>)
        ensures
            views(r@).no_duplicates(),
            forall|k: Seq<char>| #[trigger] self@.contains_key(k) <==> views(r@).contains(k),
    {
        let mut out: Vec<String> = Vec::new();
        let mut i: usize = self.entries.len();
        while i > 0
            invariant
                i <= self.entries@.len(),
                views(out@).no_duplicates(),
                forall|k: Seq<char>|
                    (exists|j: int| i <= j < self.entries@.len() && #[trigger] self.entries@[j].0@ == k)
                        <==> #[trigger] views(out@).contains(k),
            decreases i,
        {
            i = i - 1;
            let key = &self.entries[i].0;
            let mut t: usize = 0;
            let mut seen = false;
            while t < out.len()
                invariant
                    t <= out@.len(),
                    seen ==> views(out@).contains(key@),
                    !seen ==> forall|u: int| 0 <= u < t ==> out@[u]@ != key@,
                decreases out@.len() - t,
            {
                if out[t] == *key {
                    proof { assert(views(out@)[t as int] == key@); }
                    seen = true;
                }
                t = t + 1;
            }
            let ghost before = views(out@);
            if !seen {
                out.push(key.clone());
                proof {
                    assert(views(out@) =~= before.push(key@));
                    assert forall|a: int, b: int| 0 <= a < b < views(out@).len() implies views(out@)[a] != views(out@)[b] by {
                        if b == before.len() {
                            assert(views(out@)[a] == out@[a]@);
                        } else {
                            assert(before.no_duplicates());
                        }
                    }
                }
            }
            proof {
                assert forall|k: Seq<char>|
                    (exists|j: int| i <= j < self.entries@.len() && #[trigger] self.entries@[j].0@ == k)
                        <==> #[trigger] views(out@).contains(k) by {
                    let later = exists|j: int| i + 1 <= j < self.entries@.len() && #[trigger] self.entries@[j].0@ == k;
                    assert(later <==> before.contains(k));
                    if exists|j: int| i <= j < self.entries@.len() && #[trigger] self.entries@[j].0@ == k {
                        let j = choose|j: int| i <= j < self.entries@.len() && #[trigger] self.entries@[j].0@ == k;
                        if j > i {
                            assert(later);
                            let u = choose|u: int| 0 <= u < before.len() && before[u] == k;
                            assert(views(out@)[u] == k);
                        } else if seen {
                            assert(views(out@) == before);
                        } else {
                            assert(views(out@)[before.len() as int] == k);
                        }
                    }
                    if views(out@).contains(k) {
                        let u = choose|u: int| 0 <= u < views(out@).len() && views(out@)[u] == k;
                        if u < before.len() {
                            assert(before[u] == k);
                            assert(before.contains(k));
                            assert(later);
                        } else {
                            assert(self.entries@[i as int].0@ == k);
                        }
                    }
                }
            }
        }
        proof {
            assert forall|k: Seq<char>| #[trigger] self@.contains_key(k) <==> views(out@).contains(k) by {
                lemma_entries_map_contains(self.entries@, k);
                if self@.contains_key(k) {
                    let j = choose|j: int| 0 <= j < self.entries@.len() && #[trigger] self.entries@[j].0@ == k;
                    assert(0 <= j < self.entries@.len() && self.entries@[j].0@ == k);
                }
                if views(out@).contains(k) {
                    let j = choose|j: int| 0 <= j < self.entries@.len() && #[trigger] self.entries@[j].0@ == k;
                    assert(self.entries@[j].0@ == k);
                }
            }
        }
        out
    }

    /// Adds a stage under `name`, replacing any stage of that name.
    pub fn insert(&mut self, name: String, block: StageBlock)
        ensures
            final(self)@ == old(self)@.insert(name@, block@),
    {
        let ghost s = self.entries@;
        self.entries.push((name, block));
        proof {
            assert(self.entries@.drop_last() =~= s);
        }
    }
}

impl PartialEq for StageMap {
    fn eq(&self, other: &StageMap) -> (r: bool)
        ensures
            r == (self@ == other@),
    {
        let mut i: usize = 0;
        while i < self.entries.len()
            invariant
                i <= self.entries@.len(),
                forall|j: int| 0 <= j < i ==> {
                    let k = #[trigger] self.entries@[j].0@;
                    self@.contains_key(k) && other@.contains_key(k) && other@[k] == self@[k]
                },
            decreases self.entries@.len() - i,
        {
            let key = self.entries[i].0.as_str();
            proof { lemma_entries_map_contains(self.entries@, key@); }
            let mine = self.get(key).unwrap();
            match other.get(key) {
                Some(theirs) => {
                    if !same_block(mine, theirs) {
                        return false;
                    }
                },
                None => {
                    return false;
                },
            }
            i = i + 1;
        }
        let mut i: usize = 0;
        while i < other.entries.len()
            invariant
                i <= other.entries@.len(),
                forall|j: int| 0 <= j < i ==> self@.contains_key(#[trigger] other.entries@[j].0@),
            decreases other.entries@.len() - i,
        {
            let key = other.entries[i].0.as_str();
            proof { lemma_entries_map_contains(other.entries@, key@); }
            
            if self.get(key).is_none() {
                return false;
            }
            i = i + 1;
        }
        proof {
            assert forall|k: Seq<char>| #[trigger] self@.contains_key(k) implies other@.contains_key(k)
                && other@[k] == self@[k] by {
                lemma_entries_map_contains(self.entries@, k);
                let j = choose|j: int| 0 <= j < self.entries@.len() && #[trigger] self.entries@[j].0@ == k;
            }
            assert forall|k: Seq<char>| #[trigger] other@.contains_key(k) implies self@.contains_key(k) by {
                lemma_entries_map_contains(other.entries@, k);
                let j = choose|j: int| 0 <= j < other.entries@.len() && #[trigger] other.entries@[j].0@ == k;
            }
            assert(self@ =~= other@);
        }
        true
    }
}

impl vstd::std_specs::cmp::PartialEqSpecImpl for StageMap {
    open spec fn obeys_eq_spec() -> bool {
        true
    }

    open spec fn eq_spec(&self, other: &StageMap) -> bool {
        self@ == other@
    }
}

} // verus!
