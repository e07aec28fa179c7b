//! The binding table that lives for a whole session.
use vstd::prelude::*;

verus! {

/// A table from variable names to the integer last bound to them.
pub struct Environment {
    names: Vec<String>,
    values: Vec<i32>,
}

impl Environment {
    /// The table is well formed: one value per name, and no name twice.
    pub closed spec fn wf(&self) -> bool {
        &&& self.names.len() == self.values.len()
        &&& forall|i: int, j: int|
            0 <= i < j < self.names.len() ==> #[trigger] self.names@[i]@ != #[trigger] self.names@[j]@
    }

    /// Whether `k` is the name stored at slot `i`.
    closed spec fn holds_at(&self, k: Seq<char>, i: int) -> bool {
        0 <= i < self.names.len() && self.names@[i]@ == k
    }

    proof fn lemma_slot_unique(&self, k: Seq<char>, i: int, j: int)
        requires
            self.wf(),
            self.holds_at(k, i),
            self.holds_at(k, j),
        ensures
            i == j,
    {
        if i < j {
            assert(self.names@[i]@ != self.names@[j]@);
        } else if j < i {
            assert(self.names@[j]@ != self.names@[i]@);
        }
    }

    /// An empty table.
    pub fn new() -> (r: Environment)
        ensures
            r.wf(),
            r@ == Map::<Seq<char>, i32>::empty(),
    {
        let r = Environment { names: Vec::new(), values: Vec::new() };
        assert(r@ =~= Map::<Seq<char>, i32>::empty());
        r
    }

    fn find(&self, name: &String) -> (r: Option<usize>)
        requires
            self.wf(),
        ensures
            match r {
                Some(i) => self.holds_at(name@, i as int),
                None => forall|i: int| !self.holds_at(name@, i),
            },
    {
        let mut i: usize = 0;
        while i < self.names.len()
            invariant
                i <= self.names.len(),
                forall|j: int| 0 <= j < i ==> !self.holds_at(name@, j),
            decreases self.names.len() - i,
        {
            if self.names[i] == *name {
                return Some(i);
            }
            i = i + 1;
        }
        None
    }

    /// The value bound to `name`, if any.
    pub fn get(&self, name: &String) -> (r: Option<i32>)
        requires
            self.wf(),
        ensures
            r == (if self@.contains_key(name@) {
                Some(self@[name@])
            } else {
                None::<i32>
            }),
    {
        match self.find(name) {
            Some(i) => {
                let ghost k = name@;
                proof {
                    let j = choose|j: int| self.holds_at(k, j);
                    self.lemma_slot_unique(k, i as int, j);
                }
                Some(self.values[i])
            },
            None => None,
        }
    }

    /// Binds `name` to `value`, replacing any earlier binding of `name`.
    pub fn insert(&mut self, name: String, value: i32)
        requires
            old(self).wf(),
        ensures
            final(self).wf(),
            final(self)@ == old(self)@.insert(name@, value),
    {
        let ghost k = name@;
        let ghost before = *self;
        match self.find(&name) {
            Some(i) => {
                self.values.set(i, value);
                proof {
                    assert(self.names@ == before.names@);
                    assert forall|q: Seq<char>| #[trigger] self@.contains_key(q) implies self@[q]
                        == before@.insert(k, value)[q] by {
                        let j = choose|j: int| self.holds_at(q, j);
                        assert(before.holds_at(q, j));
                        if q == k {
                            self.lemma_slot_unique(k, i as int, j);
                        } else {
                            let j0 = choose|j: int| before.holds_at(q, j);
                            before.lemma_slot_unique(q, j, j0);
                        }
                    }
                    assert forall|q: Seq<char>| #[trigger] before@.insert(k, value).contains_key(q)
                        implies self@.contains_key(q) by {
                        if q != k {
                            let j0 = choose|j: int| before.holds_at(q, j);
                            assert(self.holds_at(q, j0));
                        } else {
                            assert(self.holds_at(q, i as int));
                        }
                    }
                    assert forall|q: Seq<char>| #[trigger] self@.contains_key(q)
                        implies before@.insert(k, value).contains_key(q) by {
                        let j = choose|j: int| self.holds_at(q, j);
                        assert(before.holds_at(q, j));
                    }
                    assert(self@ =~= before@.insert(k, value));
                }
            },
            None => {
                self.names.push(name);
                self.values.push(value);
                proof {
                    assert forall|i: int, j: int| 0 <= i < j < self.names.len() implies
                        #[trigger] self.names@[i]@ != #[trigger] self.names@[j]@ by {
                        if j == before.names.len() {
                            assert(!before.holds_at(k, i));
                        } else {
                            assert(before.names@[i] == self.names@[i]);
                            assert(before.names@[j] == self.names@[j]);
                        }
                    }
                    assert(self.holds_at(k, before.names.len() as int));
                    assert forall|q: Seq<char>| #[trigger] self@.contains_key(q) implies self@[q]
                        == before@.insert(k, value)[q] by {
                        let j = choose|j: int| self.holds_at(q, j);
                        if q == k {
                            self.lemma_slot_unique(k, before.names.len() as int, j);
                        } else {
                            assert(before.holds_at(q, j));
                            let j0 = choose|j: int| before.holds_at(q, j);
                            before.lemma_slot_unique(q, j, j0);
                        }
                    }
                    assert forall|q: Seq<char>| #[trigger] before@.insert(k, value).contains_key(q)
                        implies self@.contains_key(q) by {
                        if q != k {
                            let j0 = choose|j: int| before.holds_at(q, j);
                            assert(self.holds_at(q, j0));
                        }
                    }
                    assert forall|q: Seq<char>| #[trigger] self@.contains_key(q)
                        implies before@.insert(k, value).contains_key(q) by {
                        let j = choose|j: int| self.holds_at(q, j);
                        if q != k {
                            assert(j != before.names.len());
                            assert(before.holds_at(q, j));
                        }
                    }
                    assert(self@ =~= before@.insert(k, value));
                }
            },
        }
    }
}

impl View for Environment {
    type V = Map<Seq<char>, i32>;

    closed spec fn view(&self) -> Map<Seq<char>, i32> {
        Map::new(
            |k: Seq<char>| exists|i: int| self.holds_at(k, i),
            |k: Seq<char>| self.values@[choose|i: int| self.holds_at(k, i)],
        )
    }
}

} // verus!
