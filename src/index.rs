use vstd::prelude::*;
use vstd::string::*;
use crate::paths::{hashed_filename, hashed_name, same_text};

verus! {

/// The mapping from each asset's path to the hash of its content.
/// Each path occurs at most once.
pub struct AssetIndex {
    entries: Vec<(String, String)>,
}

impl AssetIndex {
    /// No path occurs twice.
    pub closed spec fn wf(&self) -> bool {
        forall|i: int, j: int|
            0 <= i < j < self.entries@.len() ==> self.entries@[i].0@ != self.entries@[j].0@
    }

    /// What the index maps each path to.
    pub closed spec fn view(&self) -> Map<Seq<char>, Seq<char>> {
        Map::new(
            |k: Seq<char>| exists|i: int| 0 <= i < self.entries@.len() && self.entries@[i].0@ == k,
            |k: Seq<char>|
                self.entries@[choose|i: int|
                    0 <= i < self.entries@.len() && self.entries@[i].0@ == k].1@,
        )
    }

    proof fn lemma_entry(&self, i: int)
        requires
            self.wf(),
            0 <= i < self.entries@.len(),
        ensures
            self.view().contains_key(self.entries@[i].0@),
            self.view()[self.entries@[i].0@] == self.entries@[i].1@,
    {
        let k = self.entries@[i].0@;
        assert(self.view().contains_key(k));
        let c = choose|j: int| 0 <= j < self.entries@.len() && self.entries@[j].0@ == k;
        assert(c == i);
    }

    /// An index with no assets.
    pub fn new() -> (r: AssetIndex)
        ensures
            r.wf(),
            r.view() == Map::<Seq<char>, Seq<char>>::empty(),
    {
        let r = AssetIndex { entries: Vec::new() };
        assert(r.view() =~= Map::<Seq<char>, Seq<char>>::empty());
        r
    }

    /// Position of `path` among the entries.
    fn position(&self, path: &str) -> (r: Option<usize>)
        requires
            self.wf(),
        ensures
            match r {
                Some(i) => i < self.entries@.len() && self.entries@[i as int].0@ == path@,
                None => !self.view().contains_key(path@),
            },
    {
        let mut i: usize = 0;
        while i < self.entries.len()
            invariant
                i <= self.entries@.len(),
                forall|j: int| 0 <= j < i ==> self.entries@[j].0@ != path@,
            decreases self.entries@.len() - i,
        {
            if same_text(self.entries[i].0.as_str(), path) {
                return Some(i);
            }
            i = i + 1;
        }
        None
    }

    /// The hash recorded for `path`.
    pub fn get(&self, path: &str) -> (r: Option<&String>)
        requires
            self.wf(),
        ensures
            match r {
                Some(h) => self.view().contains_key(path@) && self.view()[path@] == h@,
                None => !self.view().contains_key(path@),
            },
    {
        match self.position(path) {
            Some(i) => {
                proof {
                    self.lemma_entry(i as int);
                }
                Some(&self.entries[i].1)
            },
            None => None,
        }
    }

    /// Records `hash` for `path`, replacing what was recorded for it before.
    pub fn insert(&mut self, path: String, hash: String)
        requires
            old(self).wf(),
        ensures
            final(self).wf(),
            final(self).view() == old(self).view().insert(path@, hash@),
    {
        let ghost p = path@;
        let ghost h = hash@;
        match self.position(path.as_str()) {
            Some(i) => {
                let ghost before = self.entries@;
                self.entries.set(i, (path, hash));
                proof {
                    assert forall|k: Seq<char>| #![auto]
                        self.view().contains_key(k) == old(self).view().insert(p, h).contains_key(k)
                        by {
                        if exists|j: int| 0 <= j < before.len() && before[j].0@ == k {
                            let j = choose|j: int| 0 <= j < before.len() && before[j].0@ == k;
                            assert(self.entries@[j].0@ == k);
                        }
                        if exists|j: int| 0 <= j < self.entries@.len() && self.entries@[j].0@ == k {
                            let j = choose|j: int| 0 <= j < self.entries@.len() && self.entries@[j].0@ == k;
                            if j != i {
                                assert(before[j].0@ == k);
                            }
                        }
                    }
                    assert forall|k: Seq<char>| #![auto] self.view().contains_key(k)
                        implies self.view()[k] == old(self).view().insert(p, h)[k] by {
                        let j = choose|j: int| 0 <= j < self.entries@.len() && self.entries@[j].0@ == k;
                        self.lemma_entry(j);
                        if j != i {
                            assert(before[j] == self.entries@[j]);
                            old(self).lemma_entry(j);
                        }
                    }
                    assert(self.view() =~= old(self).view().insert(p, h));
                }
            },
            None => {
                let ghost before = self.entries@;
                self.entries.push((path, hash));
                proof {
                    let n = before.len() as int;
                    assert forall|k: Seq<char>| #![auto]
                        self.view().contains_key(k) == old(self).view().insert(p, h).contains_key(k)
                        by {
                        if exists|j: int| 0 <= j < before.len() && before[j].0@ == k {
                            let j = choose|j: int| 0 <= j < before.len() && before[j].0@ == k;
                            assert(self.entries@[j].0@ == k);
                        }
                        if k == p {
                            assert(self.entries@[n].0@ == k);
                        }
                        if exists|j: int| 0 <= j < self.entries@.len() && self.entries@[j].0@ == k {
                            let j = choose|j: int| 0 <= j < self.entries@.len() && self.entries@[j].0@ == k;
                            if j != n {
                                assert(before[j].0@ == k);
                            }
                        }
                    }
                    assert forall|k: Seq<char>| #![auto] self.view().contains_key(k)
                        implies self.view()[k] == old(self).view().insert(p, h)[k] by {
                        let j = choose|j: int| 0 <= j < self.entries@.len() && self.entries@[j].0@ == k;
                        self.lemma_entry(j);
                        if j != n {
                            assert(before[j] == self.entries@[j]);
                            old(self).lemma_entry(j);
                        }
                    }
                    assert(self.view() =~= old(self).view().insert(p, h));
                }
            },
        }
    }
    /// Every asset's path paired with the path it is renamed to: the same
    /// hashed name that references to it are rewritten to. Each asset occurs
    /// once.
    pub fn renames(&self) -> (r: Vec<(String, String)>)
        requires
            self.wf(),
        ensures
            forall|i: int|
                0 <= i < r@.len() ==> {
                    &&& self.view().contains_key(#[trigger] r@[i].0@)
                    &&& r@[i].1@ == hashed_name(r@[i].0@, self.view()[r@[i].0@])
                },
            forall|k: Seq<char>|
                self.view().contains_key(k) ==> exists|i: int| 0 <= i < r@.len() && r@[i].0@ == k,
            forall|i: int, j: int| 0 <= i < j < r@.len() ==> r@[i].0@ != r@[j].0@,
    {
        let mut r: Vec<(String, String)> = Vec::new();
        let mut i: usize = 0;
        while i < self.entries.len()
            invariant
                self.wf(),
                i <= self.entries@.len(),
                r@.len() == i,
                forall|j: int| 0 <= j < i ==> r@[j].0@ == self.entries@[j].0@,
                forall|j: int|
                    0 <= j < i ==> r@[j].1@ == hashed_name(self.entries@[j].0@, self.entries@[j].1@),
            decreases self.entries@.len() - i,
        {
            let (p, h) = (&self.entries[i].0, &self.entries[i].1);
            let target = hashed_filename(p.as_str(), h.as_str());
            r.push((p.clone(), target));
            i = i + 1;
        }
        proof {
            assert forall|j: int| 0 <= j < r@.len() implies {
                &&& self.view().contains_key(#[trigger] r@[j].0@)
                &&& r@[j].1@ == hashed_name(r@[j].0@, self.view()[r@[j].0@])
            } by {
                self.lemma_entry(j);
            }
            assert forall|k: Seq<char>| self.view().contains_key(k) implies exists|j: int|
                0 <= j < r@.len() && r@[j].0@ == k by {
                let j = choose|j: int| 0 <= j < self.entries@.len() && self.entries@[j].0@ == k;
                assert(r@[j].0@ == k);
            }
        }
        r
    }
}

} // verus!
