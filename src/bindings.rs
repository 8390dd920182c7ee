//! The binding set: a map from single-character variable names to values.
use vstd::prelude::*;

verus! {

/// Variable names mapped to their values, each name at most once.
pub struct Bindings {
    entries: Vec<(char, i32)>,
    model: Ghost<Map<char, i32>>,
}

impl View for Bindings {
    type V = Map<char, i32>;

    closed spec fn view(&self) -> Map<char, i32> {
        self.model@
    }
}

impl Bindings {
    /// The entries hold each key once and are exactly the view's pairs.
    pub closed spec fn wf(&self) -> bool {
        &&& forall|i: int, j: int|
            0 <= i < j < self.entries@.len() ==> #[trigger] self.entries@[i].0
                != #[trigger] self.entries@[j].0
        &&& forall|i: int|
            0 <= i < self.entries@.len() ==> self.model@.contains_key(
                #[trigger] self.entries@[i].0,
            ) && self.model@[self.entries@[i].0] == self.entries@[i].1
        &&& forall|k: char|
            self.model@.contains_key(k) ==> exists|i: int|
                0 <= i < self.entries@.len() && #[trigger] self.entries@[i].0 == k
    }

    /// An empty binding set.
    pub fn new() -> (r: Bindings)
        ensures
            r.wf(),
            r@ == Map::<char, i32>::empty(),
    {
        Bindings { entries: Vec::new(), model: Ghost(Map::empty()) }
    }

    fn find(&self, key: char) -> (r: Option<usize>)
        requires
            self.wf(),
        ensures
            match r {
                Some(i) => i < self.entries@.len() && self.entries@[i as int].0 == key,
                None => !self@.contains_key(key),
            },
    {
        let mut i: usize = 0;
        while i < self.entries.len()
            invariant
                self.wf(),
                i <= self.entries@.len(),
                forall|j: int| 0 <= j < i ==> #[trigger] self.entries@[j].0 != key,
            decreases self.entries@.len() - i,
        {
            if self.entries[i].0 == key {
                return Some(i);
            }
            i = i + 1;
        }
        None
    }

    /// Binds `key` to `value`, replacing an earlier value of `key`.
    pub fn insert(&mut self, key: char, value: i32)
        requires
            old(self).wf(),
        ensures
            final(self).wf(),
            final(self)@ == old(self)@.insert(key, value),
    {
        let ghost m = self.model@.insert(key, value);
        let ghost pos: int;
        match self.find(key) {
            Some(i) => {
                self.entries.set(i, (key, value));
                proof {
                    pos = i as int;
                }
            },
            None => {
                self.entries.push((key, value));
                proof {
                    pos = self.entries@.len() - 1;
                }
            },
        }
        self.model = Ghost(m);
        assert(self.entries@[pos].0 == key);
        assert forall|k: char| m.contains_key(k) implies exists|i: int|
            0 <= i < self.entries@.len() && #[trigger] self.entries@[i].0 == k by {
            if k != key {
                let i = choose|i: int|
                    0 <= i < old(self).entries@.len() && #[trigger] old(self).entries@[i].0 == k;
                assert(self.entries@[i].0 == k);
            } else {
                assert(self.entries@[pos].0 == k);
            }
        }
    }

    /// The value bound to `key`, if any.
    pub fn get(&self, key: char) -> (r: Option<i32>)
        requires
            self.wf(),
        ensures
            r == (if self@.contains_key(key) {
                Some(self@[key])
            } else {
                None
            }),
    {
        match self.find(key) {
            Some(i) => Some(self.entries[i].1),
            None => None,
        }
    }

    /// The bound variable names, each once.
    pub fn keys(&self) -> (r: Vec<char>)
        requires
            self.wf(),
        ensures
            forall|k: char| self@.contains_key(k) <==> r@.contains(k),
    {
        let mut out: Vec<char> = Vec::new();
        let mut i: usize = 0;
        while i < self.entries.len()
            invariant
                self.wf(),
                i <= self.entries@.len(),
                out@ =~= self.entries@.take(i as int).map_values(|e: (char, i32)| e.0),
            decreases self.entries@.len() - i,
        {
            out.push(self.entries[i].0);
            i = i + 1;
        }
        assert forall|k: char| self@.contains_key(k) <==> out@.contains(k) by {
            if self@.contains_key(k) {
                let j = choose|j: int| 0 <= j < self.entries@.len() && #[trigger] self.entries@[j].0 == k;
                assert(out@[j] == k);
            }
            if out@.contains(k) {
                let j = choose|j: int| 0 <= j < out@.len() && out@[j] == k;
                assert(self.entries@[j].0 == k);
            }
        }
        out
    }
}

} // verus!
