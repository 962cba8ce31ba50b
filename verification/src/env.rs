//! The variable environment: a flat mapping from variable name to integer
//! value, with unique keys and no ordering guarantee.
//!
//! One environment is the accumulated state of a running program: it is
//! created empty, mutated in place by assignments and by the loop-variable
//! binding of `for`, and lives for the whole run.

use vstd::prelude::*;

verus! {

/// The mapping a list of name/value entries stands for; a later entry for
/// the same name wins.
spec fn map_of(pairs: Seq<(String, i64)>) -> Map<Seq<char>, i64>
    decreases pairs.len(),
{
    if pairs.len() == 0 {
        Map::empty()
    } else {
        map_of(pairs.drop_last()).insert(pairs.last().0@, pairs.last().1)
    }
}

/// No two entries bind the same name.
spec fn unique_keys(pairs: Seq<(String, i64)>) -> bool {
    forall|i: int, j: int| 0 <= i < j < pairs.len() ==> pairs[i].0@ != pairs[j].0@
}

proof fn lemma_map_of_contains(pairs: Seq<(String, i64)>, k: Seq<char>)
    ensures
        map_of(pairs).contains_key(k) <==> (exists|i: int|
            0 <= i < pairs.len() && pairs[i].0@ == k),
    decreases pairs.len(),
{
    if pairs.len() > 0 {
        let prev = pairs.drop_last();
        lemma_map_of_contains(prev, k);
        if pairs.last().0@ == k {
            assert(pairs[pairs.len() - 1].0@ == k);
        } else {
            if exists|i: int| 0 <= i < prev.len() && prev[i].0@ == k {
                let i = choose|i: int| 0 <= i < prev.len() && prev[i].0@ == k;
                assert(pairs[i].0@ == k);
            }
            if exists|i: int| 0 <= i < pairs.len() && pairs[i].0@ == k {
                let i = choose|i: int| 0 <= i < pairs.len() && pairs[i].0@ == k;
                assert(prev[i].0@ == k);
            }
        }
    }
}

proof fn lemma_map_of_entry(pairs: Seq<(String, i64)>, i: int)
    requires
        unique_keys(pairs),
        0 <= i < pairs.len(),
    ensures
        map_of(pairs).contains_key(pairs[i].0@),
        map_of(pairs)[pairs[i].0@] == pairs[i].1,
    decreases pairs.len(),
{
    if i == pairs.len() - 1 {
    } else {
        let prev = pairs.drop_last();
        lemma_map_of_entry(prev, i);
        assert(pairs.last().0@ != pairs[i].0@);
    }
}

proof fn lemma_map_of_remove(pairs: Seq<(String, i64)>, j: int)
    requires
        unique_keys(pairs),
        0 <= j < pairs.len(),
    ensures
        map_of(pairs.remove(j)) == map_of(pairs).remove(pairs[j].0@),
    decreases pairs.len(),
{
    let k = pairs[j].0@;
    if j == pairs.len() - 1 {
        let prev = pairs.drop_last();
        assert(pairs.remove(j) =~= prev);
        lemma_map_of_contains(prev, k);
        assert(!map_of(prev).contains_key(k));
        assert(map_of(prev).insert(k, pairs.last().1).remove(k) =~= map_of(prev));
    } else {
        let prev = pairs.drop_last();
        lemma_map_of_remove(prev, j);
        assert(pairs.remove(j).drop_last() =~= prev.remove(j));
        assert(pairs.remove(j).last() == pairs.last());
        assert(pairs.last().0@ != k);
        assert(map_of(prev).remove(k).insert(pairs.last().0@, pairs.last().1) =~= map_of(
            prev,
        ).insert(pairs.last().0@, pairs.last().1).remove(k));
    }
}

/// The variable environment of one program run.
pub struct Env {
    pairs: Vec<(String, i64)>,
}

impl View for Env {
    type V = Map<Seq<char>, i64>;

    closed spec fn view(&self) -> Map<Seq<char>, i64> {
        map_of(self.pairs@)
    }
}

impl Env {
    #[verifier::type_invariant]
    spec fn wf(self) -> bool {
        unique_keys(self.pairs@)
    }

    /// A fresh, empty environment.
    pub fn new() -> (r: Env)
        ensures
            r@ == Map::<Seq<char>, i64>::empty(),
    {
        Env { pairs: Vec::new() }
    }

    /// The position of the entry for `name`, if one exists.
    fn find(&self, name: &str) -> (r: Option<usize>)
        ensures
            match r {
                Some(j) => j < self.pairs@.len() && self.pairs@[j as int].0@ == name@,
                None => forall|i: int| 0 <= i < self.pairs@.len() ==> self.pairs@[i].0@ != name@,
            },
    {
        let key: String = name.to_owned();
        let n: usize = self.pairs.len();
        let mut j: usize = 0;
        while j < n
            invariant
                j <= n,
                n == self.pairs@.len(),
                key@ == name@,
                forall|i: int| 0 <= i < j ==> self.pairs@[i].0@ != name@,
            decreases n - j,
        {
            if self.pairs[j].0 == key {
                return Some(j);
            }
            j = j + 1;
        }
        None
    }

    /// The value bound to `name`, if any.
    pub fn get(&self, name: &str) -> (r: Option<i64>)
        ensures
            r == if self@.contains_key(name@) {
                Some(self@[name@])
            } else {
                None::<i64>
            },
    {
        proof {
            use_type_invariant(&*self);
        }
        match self.find(name) {
            Some(j) => {
                proof {
                    lemma_map_of_entry(self.pairs@, j as int);
                }
                Some(self.pairs[j].1)
            },
            None => {
                proof {
                    lemma_map_of_contains(self.pairs@, name@);
                }
                None
            },
        }
    }

    /// Removes any binding of `name`.
    pub fn remove(&mut self, name: &str)
        ensures
            final(self)@ == old(self)@.remove(name@),
    {
        proof {
            use_type_invariant(&*self);
        }
        let idx = self.find(name);
        let mut v: Vec<(String, i64)> = Vec::new();
        core::mem::swap(&mut v, &mut self.pairs);
        match idx {
            Some(j) => {
                proof {
                    lemma_map_of_remove(v@, j as int);
                }
                v.remove(j);
                proof {
                    assert(unique_keys(v@));
                }
            },
            None => {
                proof {
                    lemma_map_of_contains(v@, name@);
                    assert(map_of(v@).remove(name@) =~= map_of(v@));
                }
            },
        }
        core::mem::swap(&mut v, &mut self.pairs);
    }

    /// Binds `name` to `value`, overwriting any existing binding.
    pub fn insert(&mut self, name: &str, value: i64)
        ensures
            final(self)@ == old(self)@.insert(name@, value),
    {
        self.remove(name);
        proof {
            use_type_invariant(&*self);
            lemma_map_of_contains(self.pairs@, name@);
        }
        let entry = (name.to_owned(), value);
        let mut v: Vec<(String, i64)> = Vec::new();
        core::mem::swap(&mut v, &mut self.pairs);
        let ghost before = v@;
        v.push(entry);
        proof {
            assert(v@.drop_last() =~= before);
            assert(unique_keys(v@));
        }
        core::mem::swap(&mut v, &mut self.pairs);
        proof {
            assert(old(self)@.remove(name@).insert(name@, value) =~= old(self)@.insert(
                name@,
                value,
            ));
        }
    }
}

} // verus!
