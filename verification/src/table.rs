//! A table from paths to values, kept as a list in which no path stands twice.

use crate::text::same_bytes;
use vstd::prelude::*;

verus! {

/// A finite map from byte-string paths to values.
pub(crate) struct PathTable<V> {
    keys: Vec<Vec<u8>>,
    values: Vec<V>,
}

impl<V> PathTable<V> {
    /// The paths of the table, in the order in which they are kept.
    pub closed spec fn paths(&self) -> Seq<Seq<u8>> {
        self.keys@.map_values(|k: Vec<u8>| k@)
    }

    /// The values of the table, each at the place of its path.
    pub closed spec fn values(&self) -> Seq<V> {
        self.values@
    }

    /// Every path has its value, and no path stands twice.
    pub open spec fn wf(&self) -> bool {
        &&& self.paths().len() == self.values().len()
        &&& forall|i: int, j: int|
            0 <= i < j < self.paths().len() ==> #[trigger] self.paths()[i]
                != #[trigger] self.paths()[j]
    }

    /// Where `path` stands in the table, if it does.
    pub open spec fn place(&self, path: Seq<u8>) -> int {
        choose|i: int| 0 <= i < self.paths().len() && self.paths()[i] == path
    }

    /// The table as a map.
    pub open spec fn map(&self) -> Map<Seq<u8>, V> {
        Map::new(
            |p: Seq<u8>| exists|i: int| 0 <= i < self.paths().len() && self.paths()[i] == p,
            |p: Seq<u8>| self.values()[self.place(p)],
        )
    }

    /// In a well-formed table the path at place `i` is found at place `i`.
    pub proof fn lemma_place(&self, i: int)
        requires
            self.wf(),
            0 <= i < self.paths().len(),
        ensures
            self.place(self.paths()[i]) == i,
            self.map().contains_key(self.paths()[i]),
            self.map()[self.paths()[i]] == self.values()[i],
    {
        let p = self.paths()[i];
        let j = self.place(p);
        assert(0 <= j < self.paths().len() && self.paths()[j] == p);
        if j < i {
            assert(self.paths()[j] != self.paths()[i]);
        } else if i < j {
            assert(self.paths()[i] != self.paths()[j]);
        }
    }

    /// The map of a well-formed table has as many paths as the table keeps.
    pub proof fn lemma_domain(&self)
        requires
            self.wf(),
        ensures
            self.map().dom().finite(),
            self.map().dom().len() == self.paths().len(),
    {
        self.lemma_domain_upto(self.paths().len() as int);
        assert(self.map().dom() =~= self.paths().to_set());
        assert(self.paths().take(self.paths().len() as int) =~= self.paths());
    }

    proof fn lemma_domain_upto(&self, n: int)
        requires
            self.wf(),
            0 <= n <= self.paths().len(),
        ensures
            self.paths().take(n).to_set().finite(),
            self.paths().take(n).to_set().len() == n,
        decreases n,
    {
        let prefix = self.paths().take(n);
        if n == 0 {
            assert(prefix.to_set() =~= Set::<Seq<u8>>::empty());
        } else {
            self.lemma_domain_upto(n - 1);
            let shorter = self.paths().take(n - 1);
            let last = self.paths()[n - 1];
            assert(!shorter.to_set().contains(last)) by {
                if shorter.to_set().contains(last) {
                    let k = choose|k: int| 0 <= k < shorter.len() && shorter[k] == last;
                    assert(self.paths()[k] != self.paths()[n - 1]);
                }
            }
            assert(prefix.to_set() =~= shorter.to_set().insert(last)) by {
                assert forall|p: Seq<u8>| prefix.to_set().contains(p) implies shorter.to_set().insert(
                    last,
                ).contains(p) by {
                    let k = choose|k: int| 0 <= k < prefix.len() && prefix[k] == p;
                    if k < n - 1 {
                        assert(shorter[k] == p);
                    }
                }
                assert forall|p: Seq<u8>| shorter.to_set().insert(last).contains(p) implies
                    prefix.to_set().contains(p) by {
                    if p == last {
                        assert(prefix[n - 1] == p);
                    } else {
                        let k = choose|k: int| 0 <= k < shorter.len() && shorter[k] == p;
                        assert(prefix[k] == p);
                    }
                }
            }
        }
    }

    /// An empty table.
    pub fn new() -> (t: PathTable<V>)
        ensures
            t.wf(),
            t.map() == Map::<Seq<u8>, V>::empty(),
            t.paths().len() == 0,
    {
        let t = PathTable { keys: Vec::new(), values: Vec::new() };
        assert(t.map() =~= Map::<Seq<u8>, V>::empty());
        t
    }

    /// The number of paths in the table.
    pub fn len(&self) -> (n: usize)
        requires
            self.wf(),
        ensures
            n == self.paths().len(),
    {
        self.keys.len()
    }

    /// The place of `path`, if the table holds it.
    pub fn find(&self, path: &[u8]) -> (r: Option<usize>)
        requires
            self.wf(),
        ensures
            match r {
                Some(i) => i < self.paths().len() && self.paths()[i as int] == path@
                    && self.map().contains_key(path@) && self.map()[path@]
                    == self.values()[i as int],
                None => !self.map().contains_key(path@),
            },
    {
        let mut i: usize = 0;
        while i < self.keys.len()
            invariant
                self.wf(),
                i <= self.keys@.len(),
                forall|k: int| 0 <= k < i ==> #[trigger] self.paths()[k] != path@,
            decreases self.keys@.len() - i,
        {
            assert(self.paths()[i as int] == self.keys@[i as int]@);
            if same_bytes(self.keys[i].as_slice(), path) {
                proof {
                    self.lemma_place(i as int);
                }
                return Some(i);
            }
            i += 1;
        }
        None
    }

    /// Whether the table holds `path`.
    pub fn contains(&self, path: &[u8]) -> (r: bool)
        requires
            self.wf(),
        ensures
            r == self.map().contains_key(path@),
    {
        self.find(path).is_some()
    }

    /// The value of `path`, if the table holds it.
    pub fn get(&self, path: &[u8]) -> (r: Option<&V>)
        requires
            self.wf(),
        ensures
            match r {
                Some(v) => self.map().contains_key(path@) && *v == self.map()[path@],
                None => !self.map().contains_key(path@),
            },
    {
        match self.find(path) {
            Some(i) => Some(&self.values[i]),
            None => None,
        }
    }

    /// Gives `path` the value `value`, whether or not the table held the path.
    pub fn insert(&mut self, path: Vec<u8>, value: V)
        requires
            old(self).wf(),
        ensures
            final(self).wf(),
            final(self).map() == old(self).map().insert(path@, value),
    {
        let ghost before = *self;
        match self.find(path.as_slice()) {
            Some(i) => {
                self.values[i] = value;
                proof {
                    assert(self.paths() =~= before.paths());
                    assert forall|p: Seq<u8>| self.map().contains_key(p) implies #[trigger] self.map()[p]
                        == before.map().insert(path@, value)[p] by {
                        let k = self.place(p);
                        before.lemma_place(k);
                        before.lemma_place(i as int);
                    }
                    assert(self.map() =~= before.map().insert(path@, value));
                }
            },
            None => {
                self.keys.push(path);
                self.values.push(value);
                proof {
                    let n = before.paths().len() as int;
                    assert(self.paths() =~= before.paths().push(path@));
                    assert forall|i: int, j: int| 0 <= i < j < self.paths().len() implies
                        #[trigger] self.paths()[i] != #[trigger] self.paths()[j] by {
                        if j == n {
                            assert(before.paths()[i] != path@);
                        }
                    }
                    self.lemma_place(n);
                    let target = before.map().insert(path@, value);
                    assert forall|p: Seq<u8>| #[trigger] target.contains_key(p) implies
                        self.map().contains_key(p) && self.map()[p] == target[p] by {
                        if p != path@ {
                            let k = before.place(p);
                            assert(self.paths()[k] == p);
                            self.lemma_place(k);
                        }
                    }
                    assert forall|p: Seq<u8>| #[trigger] self.map().contains_key(p) implies
                        target.contains_key(p) by {
                        let k = self.place(p);
                        if k < n {
                            assert(before.paths()[k] == p);
                        }
                    }
                    assert(self.map() =~= before.map().insert(path@, value));
                }
            },
        }
    }

    /// Takes `path` out of the table and hands back its value, if the table held it.
    pub fn remove(&mut self, path: &[u8]) -> (r: Option<V>)
        requires
            old(self).wf(),
        ensures
            final(self).wf(),
            final(self).map() == old(self).map().remove(path@),
            match r {
                Some(v) => old(self).map().contains_key(path@) && v == old(self).map()[path@],
                None => !old(self).map().contains_key(path@),
            },
    {
        let ghost before = *self;
        match self.find(path) {
            None => {
                assert(self.map() =~= before.map().remove(path@));
                None
            },
            Some(i) => {
                let _ = self.keys.swap_remove(i);
                let v = self.values.swap_remove(i);
                proof {
                    let n = before.paths().len() as int;
                    // every place of the new table comes from a place of the old one
                    assert forall|k: int| 0 <= k < self.paths().len() implies exists|m: int|
                        0 <= m < n && m != i && #[trigger] self.paths()[k] == before.paths()[m]
                            && self.values()[k] == before.values()[m] by {
                        if k == i {
                            assert(self.paths()[k] == before.paths()[n - 1]);
                        } else {
                            assert(self.paths()[k] == before.paths()[k]);
                        }
                    }
                    assert forall|a: int, b: int| 0 <= a < b < self.paths().len() implies
                        #[trigger] self.paths()[a] != #[trigger] self.paths()[b] by {
                        let ma = if a == i { n - 1 } else { a };
                        let mb = if b == i { n - 1 } else { b };
                        assert(self.paths()[a] == before.paths()[ma]);
                        assert(self.paths()[b] == before.paths()[mb]);
                        if ma < mb {
                            assert(before.paths()[ma] != before.paths()[mb]);
                        } else {
                            assert(before.paths()[mb] != before.paths()[ma]);
                        }
                    }
                    assert forall|p: Seq<u8>| self.map().contains_key(p) implies
                        before.map().remove(path@).contains_key(p) && #[trigger] self.map()[p]
                        == before.map()[p] by {
                        let k = self.place(p);
                        let m = if k == i { n - 1 } else { k };
                        assert(self.paths()[k] == before.paths()[m]);
                        self.lemma_place(k);
                        before.lemma_place(m);
                        before.lemma_place(i as int);
                    }
                    assert forall|p: Seq<u8>| before.map().remove(path@).contains_key(p) implies
                        self.map().contains_key(p) by {
                        let m = before.place(p);
                        before.lemma_place(m);
                        let k = if m == n - 1 { i as int } else { m };
                        assert(self.paths()[k] == p);
                    }
                    assert(self.map() =~= before.map().remove(path@));
                }
                Some(v)
            },
        }
    }
}

} // verus!
